//! Typed lowering of Go's numeric builtins `min`, `max`, `complex`, `real`
//! and `imag` over their lowered operands.

use vstd::prelude::*;

use crate::constant::{complex_component, int_spelling_value, normalized_as, numeric_kind, ConstValue, NumericKind};
use crate::constant_ops::{fold_constant_binary, int_max, int_min, lex_less};
use crate::channels::expected_ty;
use crate::conversions::effects_of;
use crate::literals::lemma_int_spelling_roundtrip;
use crate::conversions::name_is;
use crate::exact::ExactNumber;
use crate::expressions::{
    coerce_expr, coercible, ensure_bootstrap_value_type, exact_common_operand_type, expr_constant,
    spec_exact_common_operand_type, spec_is_assignable,
};
use crate::function::FunctionLowerer;
use crate::hir::{
    fails_with, BinaryOp, Diagnostic, DiagnosticKind, Effects, Expr, ExprKind, SourceRef, UnaryOp, ValueCategory,
};
use crate::types::{ComplexTy, FloatTy, Ty, UntypedTy};

verus! {

/// The real value of a constant operand, when it has one.
pub fn constant_component(expression: &Expr) -> (r: Option<ExactNumber>)
    requires
        expression.wf(),
    ensures
        r is Some <==> (expression.spec_constant() matches Some(c) && c.spec_exact_number() is Some),
        r matches Some(x) ==> x.wf() && expression.spec_constant()->0.spec_exact_number() == Some((x.num(), x.den())),
{
    match expr_constant(expression) {
        Some(value) => value.exact_number(),
        None => None,
    }
}

/// The floating-point type of a complex type's components.
fn component_type(k: ComplexTy) -> (r: FloatTy)
    ensures
        r == complex_component(k),
{
    match k {
        ComplexTy::Complex64 => FloatTy::Float32,
        ComplexTy::Complex128 => FloatTy::Float64,
    }
}

/// The component of a constant argument that `real` or `imag` selects, as
/// a fraction: a real constant has itself as real part and zero as
/// imaginary part.
pub open spec fn constant_part(is_real: bool, c: ConstValue) -> Option<(int, int)> {
    match c {
        ConstValue::Complex { real: re, imag: im } => Some(if is_real { re.value() } else { im.value() }),
        ConstValue::Int(_) | ConstValue::Float(_) => if is_real {
            c.spec_exact_number()
        } else {
            Some((0, 1))
        },
        _ => None,
    }
}

/// The argument type that `real` and `imag` accept, defaults applied.
pub open spec fn complex_argument(ty: Ty) -> Option<ComplexTy> {
    match ty.spec_default_typed().spec_underlying() {
        Ty::Complex(k) => Some(k),
        _ => None,
    }
}

/// What lowering `min(values...)` or `max(values...)` gives.
pub open spec fn min_max_outcome(name: Seq<char>, values: Seq<Expr>, node: u64, source: SourceRef, expected: Option<Ty>, r: Result<Expr, Diagnostic>) -> bool {
    &&& (values.len() == 0 ==> (r matches Err(d) && d.kind == DiagnosticKind::Semantic && d.message@ == "call to "@
                + name + " requires at least one argument"@))
    &&& (values.len() > 0 && common_operand_type_of(values) is None ==> (r matches Err(d) && d.kind
                == DiagnosticKind::Semantic))
    &&& (common_operand_type_of(values) matches Some(t) ==> (!t.spec_default_typed().spec_is_bootstrap_value()
                ==> (r matches Err(d) && d.kind == DiagnosticKind::Unsupported)))
    &&& (common_operand_type_of(values) matches Some(t) ==> (t.spec_default_typed().spec_is_bootstrap_value()
                && !ordered_type(t.spec_default_typed()) ==> (r matches Err(d) && d.kind == DiagnosticKind::Semantic)))
    &&& (common_operand_type_of(values) matches Some(t) ==> (t.spec_default_typed() == Ty::String
                && !all_constant(values) ==> fails_with(
                r,
                DiagnosticKind::Unsupported,
                "runtime string min/max is not yet supported"@,
                source,
            )))
    &&& (common_operand_type_of(values) matches Some(t) ==> (t.spec_default_typed().spec_is_bootstrap_value()
                && ordered_type(t.spec_default_typed()) && t.spec_default_typed() != Ty::String && !all_constant(
                values,
            ) ==> (r is Ok <==> (forall|i: int|
                0 <= i < values.len() ==> coercible(#[trigger] values[i], t.spec_default_typed())) && (
            expected matches Some(x) ==> spec_is_assignable(t.spec_default_typed(), x)))))
    &&& (r matches Ok(e) ==> e.wf() && e.node == node && e.source == source)
    &&& (r matches Ok(e) ==> (e.spec_constant() is Some <==> all_constant(values)))
    &&& (r matches Ok(e) ==> match expected {
                Some(t) => e.ty == t,
                None => e.ty == if all_constant(values) {
                    common_operand_type_of(values)->0
                } else {
                    common_operand_type_of(values)->0.spec_default_typed()
                },
            })
    &&& (r matches Ok(e) ==> (all_int_constants(values) && (expected matches Some(t) ==> numeric_kind(t)
                == NumericKind::Integer) ==> (e.spec_constant() matches Some(ConstValue::Int(s)) && int_spelling_value(s@)
                == min_max_int(name == "min"@, values))))
    &&& (r matches Ok(e) ==> (expected is None && !all_constant(values) ==> e.effects == effects_of(
                values[0].effects,
                values.drop_first(),
            ) && e.category == ValueCategory::Value && (values.len() == 1 ==> (e.kind matches ExprKind::Unary {
                op,
                ..
            } && op == UnaryOp::Positive)) && (values.len() > 1 ==> (e.kind matches ExprKind::Binary { op, .. } && op == (
            if name == "min"@ {
                BinaryOp::Min
            } else {
                BinaryOp::Max
            })))))
    &&& (common_operand_type_of(values) matches Some(t) ==> (t.spec_default_typed().spec_is_bootstrap_value()
        && ordered_type(t.spec_default_typed()) && all_constant(values) && (all_real_constants(values)
        || all_string_constants(values)) && expected is None ==> r is Ok))
}

/// What lowering `complex(real_part, imag_part)` gives.
pub open spec fn complex_outcome(real_part: Expr, imag_part: Expr, node: u64, source: SourceRef, expected: Option<Ty>, r: Result<Expr, Diagnostic>) -> bool {
    &&& (spec_exact_common_operand_type(real_part.ty, imag_part.ty) is None ==> (r matches Err(d) && d.kind
                == DiagnosticKind::Semantic))
    &&& (spec_exact_common_operand_type(real_part.ty, imag_part.ty) matches Some(t) ==> (!valid_complex_component(t) ==> (
            r matches Err(d) && d.kind == DiagnosticKind::Semantic)))
    &&& (spec_exact_common_operand_type(real_part.ty, imag_part.ty) matches Some(t) ==> (valid_complex_component(t)
                && !(has_constant_part(real_part) && has_constant_part(imag_part)) ==> (r is Ok <==> coercible(
                real_part,
                Ty::Float(FloatTy::Float64),
            ) && coercible(imag_part, Ty::Float(FloatTy::Float64)) && (expected matches Some(x) ==> spec_is_assignable(
                Ty::Complex(ComplexTy::Complex128),
                x,
            )))))
    &&& (r matches Ok(e) ==> e.wf() && e.node == node && e.source == source)
    &&& (r matches Ok(e) ==> (e.spec_constant() is Some <==> (has_constant_part(real_part) && has_constant_part(imag_part))))
    &&& (r matches Ok(e) ==> match expected {
                Some(t) => e.ty == t,
                None => e.ty == if has_constant_part(real_part) && has_constant_part(imag_part)
                    && spec_exact_common_operand_type(real_part.ty, imag_part.ty)->0 is Untyped {
                    Ty::Untyped(UntypedTy::Complex)
                } else {
                    Ty::Complex(ComplexTy::Complex128)
                },
            })
    &&& (r matches Ok(e) ==> (expected is None && has_constant_part(real_part) && has_constant_part(imag_part) ==> (
            e.spec_constant() matches Some(ConstValue::Complex { real: re, imag: im }) && re.wf() && im.wf() && Some(
                re.value(),
            ) == real_part.spec_constant()->0.spec_exact_number() && Some(im.value())
                == imag_part.spec_constant()->0.spec_exact_number())))
    &&& (r matches Ok(e) ==> (expected is None && !(has_constant_part(real_part) && has_constant_part(imag_part)) ==> (
            e.kind matches ExprKind::Binary { op, left, right } && op == BinaryOp::Complex && left.ty == Ty::Float(
                FloatTy::Float64,
            ) && right.ty == Ty::Float(FloatTy::Float64) && e.effects == real_part.effects.spec_union(imag_part.effects)
                && e.category == ValueCategory::Value)))
    &&& (spec_exact_common_operand_type(real_part.ty, imag_part.ty) matches Some(t) ==> (valid_complex_component(t)
        && has_constant_part(real_part) && has_constant_part(imag_part) && expected is None ==> r is Ok))
}

/// What lowering `real(argument)` or `imag(argument)` gives.
pub open spec fn component_outcome(name: Seq<char>, argument: Expr, node: u64, source: SourceRef, expected: Option<Ty>, r: Result<Expr, Diagnostic>) -> bool {
    &&& (complex_argument(argument.ty) is None ==> (r matches Err(d) && d.kind == DiagnosticKind::Semantic
                && d.message@ == name + " requires a complex argument"@ && d.source == Some(source)))
    &&& (r matches Ok(e) ==> e.wf() && e.node == node && e.source == source)
    &&& (r matches Ok(e) ==> (e.spec_constant() is Some <==> (argument.spec_constant() matches Some(c)
                && constant_part(name == "real"@, c) is Some)))
    &&& (r matches Ok(e) ==> match expected {
                Some(t) => e.ty == t,
                None => e.ty == if argument.spec_constant() matches Some(c) && constant_part(
                    name == "real"@,
                    c,
                ) is Some && argument.ty is Untyped {
                    Ty::Untyped(UntypedTy::Float)
                } else {
                    Ty::Float(complex_component(complex_argument(argument.ty)->0))
                },
            })
    &&& (r matches Ok(e) ==> (expected is None ==> (argument.spec_constant() matches Some(c) ==> (constant_part(
                name == "real"@,
                c,
            ) matches Some(p) ==> (e.spec_constant() matches Some(ConstValue::Float(x)) && x.value() == p)))))
    &&& (r matches Ok(e) ==> (expected is None && argument.spec_constant() is None ==> (e.kind matches ExprKind::Unary {
                op,
                ..
            } && op == (if name == "real"@ {
                UnaryOp::Real
            } else {
                UnaryOp::Imag
            }) && e.effects == argument.effects && e.category == ValueCategory::Value)))
    &&& (complex_argument(argument.ty) is Some && expected is None ==> r is Ok)
    &&& (complex_argument(argument.ty) is Some && !(argument.spec_constant() matches Some(c) && constant_part(
        name == "real"@,
        c,
    ) is Some) ==> (expected matches Some(x) ==> (r is Ok <==> spec_is_assignable(
        Ty::Float(complex_component(complex_argument(argument.ty)->0)),
        x,
    ))))
}

impl FunctionLowerer {
    /// `real(argument)` or `imag(argument)`: a constant argument folds, any
    /// other becomes a runtime component selection.
    pub fn lower_complex_component(
        &self,
        name: &str,
        argument: Expr,
        node: u64,
        source: SourceRef,
        expected: Option<&Ty>,
    ) -> (r: Result<Expr, Diagnostic>)
        requires
            name@ == "real"@ || name@ == "imag"@,
            argument.wf(),
        ensures
            component_outcome(name@, argument, node, source, expected_ty(expected), r),

    {
        let is_real = name_is(name, "real");
        let complex_ty = match argument.ty.default_typed().underlying() {
            Ty::Complex(k) => *k,
            _ => {
                let mut message = String::from_str(name);
                message.append(" requires a complex argument");
                return Err(Diagnostic { kind: DiagnosticKind::Semantic, message, source: Some(source) });
            },
        };
        let component_ty = component_type(complex_ty);
        let constant = match expr_constant(&argument) {
            Some(ConstValue::Complex { real: re, imag: im }) => Some(
                if is_real {
                    re.duplicate()
                } else {
                    im.duplicate()
                },
            ),
            Some(value) => match value {
                ConstValue::Int(_) | ConstValue::Float(_) => if is_real {
                    value.exact_number()
                } else {
                    Some(ExactNumber::zero())
                },
                _ => None,
            },
            None => None,
        };
        let untyped = matches!(argument.ty, Ty::Untyped(_));
        let mut result = match constant {
            Some(component) => Expr {
                node,
                kind: ExprKind::Constant(ConstValue::Float(component)),
                ty: if untyped {
                    Ty::Untyped(UntypedTy::Float)
                } else {
                    Ty::Float(component_ty)
                },
                category: ValueCategory::Constant,
                effects: Effects::none(),
                source,
            },
            None => {
                let effects = argument.effects;
                Expr {
                    node,
                    kind: ExprKind::Unary {
                        op: if is_real {
                            UnaryOp::Real
                        } else {
                            UnaryOp::Imag
                        },
                        operand: Box::new(argument),
                    },
                    ty: Ty::Float(component_ty),
                    category: ValueCategory::Value,
                    effects,
                    source,
                }
            },
        };
        if let Some(t) = expected {
            coerce_expr(&mut result, t, source)?;
        }
        Ok(result)
    }
}

/// The component types that `complex` accepts: `float64`, or an untyped
/// numeric constant that is not complex.
pub open spec fn valid_complex_component(ty: Ty) -> bool {
    match ty.spec_underlying() {
        Ty::Float(FloatTy::Float64) => true,
        Ty::Untyped(UntypedTy::Int) | Ty::Untyped(UntypedTy::Rune) | Ty::Untyped(UntypedTy::Float) => true,
        _ => false,
    }
}

/// The constant operand has a real value.
pub open spec fn has_constant_part(e: Expr) -> bool {
    e.spec_constant() matches Some(c) && c.spec_exact_number() is Some
}

impl FunctionLowerer {
    /// `complex(real, imag)`: constant parts fold to a complex constant,
    /// other operands become `float64` values joined at run time.
    pub fn lower_complex(
        &self,
        real_part: Expr,
        imag_part: Expr,
        node: u64,
        source: SourceRef,
        expected: Option<&Ty>,
    ) -> (r: Result<Expr, Diagnostic>)
        requires
            real_part.wf(),
            imag_part.wf(),
        ensures
            complex_outcome(real_part, imag_part, node, source, expected_ty(expected), r),

    {
        let component_ty = match exact_common_operand_type(&real_part.ty, &imag_part.ty) {
            Some(t) => t,
            None => {
                return Err(Diagnostic::semantic("incompatible complex components", source));
            },
        };
        let valid = match component_ty.underlying() {
            Ty::Float(FloatTy::Float64) => true,
            Ty::Untyped(UntypedTy::Int) | Ty::Untyped(UntypedTy::Rune) | Ty::Untyped(UntypedTy::Float) => true,
            _ => false,
        };
        if !valid {
            return Err(
                Diagnostic::semantic("complex requires floating-point arguments or numeric constants", source),
            );
        }
        let parts = (constant_component(&real_part), constant_component(&imag_part));
        if let (Some(re), Some(im)) = parts {
            let mut result = Expr {
                node,
                kind: ExprKind::Constant(ConstValue::Complex { real: re, imag: im }),
                ty: if matches!(component_ty, Ty::Untyped(_)) {
                    Ty::Untyped(UntypedTy::Complex)
                } else {
                    Ty::Complex(ComplexTy::Complex128)
                },
                category: ValueCategory::Constant,
                effects: Effects::none(),
                source,
            };
            if let Some(t) = expected {
                coerce_expr(&mut result, t, source)?;
            }
            return Ok(result);
        }
        let mut real_part = real_part;
        let mut imag_part = imag_part;
        let float = Ty::Float(FloatTy::Float64);
        coerce_expr(&mut real_part, &float, source)?;
        coerce_expr(&mut imag_part, &float, source)?;
        let effects = real_part.effects.union(imag_part.effects);
        let mut result = Expr {
            node,
            kind: ExprKind::Binary { op: BinaryOp::Complex, left: Box::new(real_part), right: Box::new(imag_part) },
            ty: Ty::Complex(ComplexTy::Complex128),
            category: ValueCategory::Value,
            effects,
            source,
        };
        if let Some(t) = expected {
            coerce_expr(&mut result, t, source)?;
        }
        Ok(result)
    }
}

/// The common type of the operands, found pair by pair from the first.
pub open spec fn common_operand_type_of(values: Seq<Expr>) -> Option<Ty>
    decreases values.len(),
{
    if values.len() == 0 {
        None
    } else if values.len() == 1 {
        Some(values[0].ty)
    } else {
        match common_operand_type_of(values.drop_last()) {
            Some(t) => spec_exact_common_operand_type(t, values.last().ty),
            None => None,
        }
    }
}

/// The types whose values `min` and `max` order.
pub open spec fn ordered_type(ty: Ty) -> bool {
    ||| ty.spec_underlying() is Int
    ||| ty.spec_underlying() is Uint
    ||| ty.spec_underlying() is Float
    ||| ty.spec_underlying() == Ty::String
}

/// Every operand is a constant.
pub open spec fn all_constant(values: Seq<Expr>) -> bool {
    forall|i: int| 0 <= i < values.len() ==> (#[trigger] values[i]).spec_constant() is Some
}

/// Every operand is an integer constant.
pub open spec fn all_int_constants(values: Seq<Expr>) -> bool {
    forall|i: int| 0 <= i < values.len() ==> (#[trigger] values[i]).spec_constant() matches Some(ConstValue::Int(_))
}

/// The integer an integer constant operand holds.
pub open spec fn int_operand(e: Expr) -> int {
    match e.spec_constant() {
        Some(ConstValue::Int(s)) => int_spelling_value(s@),
        _ => 0,
    }
}

/// The least (or greatest) of the integer operands.
pub open spec fn min_max_int(is_min: bool, values: Seq<Expr>) -> int
    decreases values.len(),
{
    if values.len() <= 1 {
        int_operand(values[0])
    } else {
        let a = min_max_int(is_min, values.drop_last());
        let b = int_operand(values.last());
        if is_min {
            int_min(a, b)
        } else {
            int_max(a, b)
        }
    }
}

/// Every operand is a constant with a real value: an integer or a
/// floating-point constant.
pub open spec fn all_real_constants(values: Seq<Expr>) -> bool {
    forall|i: int|
        0 <= i < values.len() ==> ((#[trigger] values[i]).spec_constant() matches Some(c) && (c is Int
            || c is Float))
}

/// Every operand is a string constant.
pub open spec fn all_string_constants(values: Seq<Expr>) -> bool {
    forall|i: int| 0 <= i < values.len() ==> (#[trigger] values[i]).spec_constant() matches Some(ConstValue::String(_))
}

/// The bytes a string constant operand holds.
pub open spec fn string_operand(e: Expr) -> Seq<u8> {
    match e.spec_constant() {
        Some(ConstValue::String(b)) => b@,
        _ => Seq::empty(),
    }
}

/// The least (or greatest) of the string operands, in byte order.
pub open spec fn min_max_bytes(is_min: bool, values: Seq<Expr>) -> Seq<u8>
    decreases values.len(),
{
    if values.len() <= 1 {
        string_operand(values[0])
    } else {
        let a = min_max_bytes(is_min, values.drop_last());
        let b = string_operand(values.last());
        if is_min {
            if lex_less(b, a) {
                b
            } else {
                a
            }
        } else {
            if lex_less(b, a) {
                a
            } else {
                b
            }
        }
    }
}

proof fn lemma_common_prefix(values: Seq<Expr>, i: int)
    requires
        1 <= i <= values.len(),
        common_operand_type_of(values) is Some,
    ensures
        common_operand_type_of(values.take(i)) is Some,
    decreases values.len() - i,
{
    if i < values.len() {
        assert(values.take(i + 1).drop_last() =~= values.take(i));
        if i + 1 == values.len() {
            assert(values.take(i + 1) =~= values);
        } else {
            lemma_common_prefix(values, i + 1);
        }
        assert(values.take(i + 1).len() > 1);
    } else {
        assert(values.take(i) =~= values);
    }
}

/// Folds constant operands of `min` or `max` from the first.
fn fold_min_max_constants(name: &str, op: BinaryOp, values: &Vec<Expr>, source: SourceRef) -> (r: Result<
    ConstValue,
    Diagnostic,
>)
    requires
        values@.len() > 0,
        all_constant(values@),
        forall|i: int| 0 <= i < values@.len() ==> (#[trigger] values@[i]).wf(),
        op == (if name@ == "min"@ {
            BinaryOp::Min
        } else {
            BinaryOp::Max
        }),
    ensures
        r matches Ok(c) ==> c.wf(),
        r matches Ok(c) ==> (all_int_constants(values@) ==> (c matches ConstValue::Int(s) && int_spelling_value(s@)
            == min_max_int(name@ == "min"@, values@))),
        all_real_constants(values@) ==> (r matches Ok(c) && (c is Int || c is Float) && (c is Int
            <==> all_int_constants(values@))),
        all_string_constants(values@) ==> (r matches Ok(ConstValue::String(b)) && b@ == min_max_bytes(
            name@ == "min"@,
            values@,
        )),
{
    let ghost all = values@;
    let mut acc = expr_constant(&values[0]).unwrap().duplicate();
    let mut k: usize = 1;
    proof {
        assert(all[0].wf());
        assert(all.take(1).len() == 1);
        assert(all.take(1)[0] == all[0]);
        if all_real_constants(all) {
            assert(all[0].spec_constant() matches Some(c) && (c is Int || c is Float));
        }
        if all_string_constants(all) {
            assert(all[0].spec_constant() matches Some(ConstValue::String(_)));
        }
    }
    while k < values.len()
        invariant
            1 <= k <= all.len(),
            all == values@,
            all_constant(all),
            forall|i: int| 0 <= i < all.len() ==> (#[trigger] all[i]).wf(),
            acc.wf(),
            op == (if name@ == "min"@ {
                BinaryOp::Min
            } else {
                BinaryOp::Max
            }),
            all_int_constants(all) ==> (acc matches ConstValue::Int(s) && int_spelling_value(s@) == min_max_int(
                name@ == "min"@,
                all.take(k as int),
            )),
            all_real_constants(all) ==> ((acc is Int || acc is Float) && (acc is Int <==> all_int_constants(
                all.take(k as int),
            ))),
            all_string_constants(all) ==> (acc matches ConstValue::String(b) && b@ == min_max_bytes(
                name@ == "min"@,
                all.take(k as int),
            )),
        decreases all.len() - k,
    {
        let right = expr_constant(&values[k]).unwrap();
        proof {
            assert(all[k as int].wf());
            assert(all.take(k + 1).drop_last() =~= all.take(k as int));
            assert(all.take(k + 1).last() == all[k as int]);
            if all_real_constants(all) {
                assert(all[k as int].spec_constant() matches Some(c) && (c is Int || c is Float)) by {
                    assert(all_real_constants(all));
                }
                assert(all_int_constants(all.take(k + 1)) <==> (all_int_constants(all.take(k as int))
                    && all[k as int].spec_constant() matches Some(ConstValue::Int(_)))) by {
                    if all_int_constants(all.take(k + 1)) {
                        assert forall|i: int| 0 <= i < k implies (#[trigger] all.take(k as int)[i]).spec_constant() matches Some(
                            ConstValue::Int(_),
                        ) by {
                            assert(all.take(k + 1)[i] == all.take(k as int)[i]);
                        }
                        assert(all.take(k + 1)[k as int] == all[k as int]);
                    }
                }
            }
            if all_string_constants(all) {
                assert(all[k as int].spec_constant() matches Some(ConstValue::String(_)));
            }
            if all_int_constants(all) {
                assert(all[k as int].spec_constant() matches Some(ConstValue::Int(_)));
                let a = min_max_int(name@ == "min"@, all.take(k as int));
                let b = int_operand(all[k as int]);
                lemma_int_spelling_roundtrip(int_min(a, b));
                lemma_int_spelling_roundtrip(int_max(a, b));
            }
        }
        acc = match fold_constant_binary(op, &acc, right, source)? {
            Some(v) => v,
            None => {
                return Err(Diagnostic::backend("numeric min/max did not constant-fold"));
            },
        };
        k += 1;
    }
    proof {
        assert(all.take(k as int) =~= all);
    }
    Ok(acc)
}

/// Joins non-constant operands of `min` or `max`, each converted to the
/// operation's type, into a left-nested chain.
fn chain_min_max(op: BinaryOp, values: Vec<Expr>, executable_ty: &Ty, node: u64, source: SourceRef) -> (r: Result<
    Expr,
    Diagnostic,
>)
    requires
        values@.len() > 0,
        forall|i: int| 0 <= i < values@.len() ==> (#[trigger] values@[i]).wf(),
    ensures
        r is Ok <==> forall|i: int| 0 <= i < values@.len() ==> coercible(#[trigger] values@[i], *executable_ty),
        r matches Ok(e) ==> e.wf() && e.node == node && e.source == source && e.ty == *executable_ty && e.category
            == ValueCategory::Value && e.spec_constant() is None,
        r matches Ok(e) ==> e.effects == effects_of(values@[0].effects, values@.drop_first()),
        r matches Ok(e) ==> (values@.len() == 1 ==> (e.kind matches ExprKind::Unary { op: o, .. } && o
            == UnaryOp::Positive)),
        r matches Ok(e) ==> (values@.len() > 1 ==> (e.kind matches ExprKind::Binary { op: o, .. } && o == op)),
{
    let ghost all = values@;
    let count = values.len();
    assert(all.len() == count);
    let mut rest = values;
    let mut result = rest.remove(0);
    proof {
        assert(rest@ =~= all.subrange(1, all.len() as int));
        assert(result.wf());
    }
    if let Err(d) = coerce_expr(&mut result, executable_ty, source) {
        assert(!coercible(all[0], *executable_ty));
        return Err(d);
    }
    assert(coercible(all[0], *executable_ty));
    if rest.len() == 0 {
        let effects = result.effects;
        proof {
            assert(all.drop_first() =~= Seq::<Expr>::empty());
        }
        return Ok(
            Expr {
                node,
                kind: ExprKind::Unary { op: UnaryOp::Positive, operand: Box::new(result) },
                ty: executable_ty.clone(),
                category: ValueCategory::Value,
                effects,
                source,
            },
        );
    }
    let mut taken: usize = 1;
    proof {
        assert(all.subrange(1, 1) =~= Seq::<Expr>::empty());
    }
    while rest.len() > 0
        invariant
            1 <= taken <= all.len(),
            all.len() <= usize::MAX,
            rest@ == all.subrange(taken as int, all.len() as int),
            forall|i: int| 0 <= i < all.len() ==> (#[trigger] all[i]).wf(),
            result.wf(),
            result.ty == *executable_ty,
            taken > 1 ==> (result.node == node && result.source == source && result.category == ValueCategory::Value
                && (result.kind matches ExprKind::Binary { op: o, .. } && o == op)),
            result.effects == effects_of(all[0].effects, all.subrange(1, taken as int)),
            forall|i: int| 0 <= i < taken ==> coercible(#[trigger] all[i], *executable_ty),
            all == values@,
        decreases rest@.len(),
    {
        let mut right = rest.remove(0);
        proof {
            assert(right == all[taken as int]);
            assert(rest@ =~= all.subrange(taken + 1, all.len() as int));
            assert(all.subrange(1, taken + 1).drop_last() =~= all.subrange(1, taken as int));
        }
        let ghost original = right;
        if let Err(d) = coerce_expr(&mut right, executable_ty, source) {
            assert(!coercible(all[taken as int], *executable_ty));
            return Err(d);
        }
        assert(coercible(all[taken as int], *executable_ty));
        let effects = result.effects.union(right.effects);
        result = Expr {
            node,
            kind: ExprKind::Binary { op, left: Box::new(result), right: Box::new(right) },
            ty: executable_ty.clone(),
            category: ValueCategory::Value,
            effects,
            source,
        };
        taken += 1;
    }
    proof {
        assert(all.subrange(1, all.len() as int) =~= all.drop_first());
    }
    Ok(result)
}

impl FunctionLowerer {
    /// `min(...)` or `max(...)`: constant operands fold, others become a
    /// chain of runtime comparisons in operand order.
    #[verifier::spinoff_prover]
    #[verifier::rlimit(100)]
    pub fn lower_min_max(
        &self,
        name: &str,
        values: Vec<Expr>,
        node: u64,
        source: SourceRef,
        expected: Option<&Ty>,
    ) -> (r: Result<Expr, Diagnostic>)
        requires
            name@ == "min"@ || name@ == "max"@,
            forall|i: int| 0 <= i < values@.len() ==> (#[trigger] values@[i]).wf(),
        ensures
            min_max_outcome(name@, values@, node, source, expected_ty(expected), r),

    {
        let ghost all = values@;
        if values.len() == 0 {
            let mut message = String::from_str("call to ");
            message.append(name);
            message.append(" requires at least one argument");
            return Err(Diagnostic { kind: DiagnosticKind::Semantic, message, source: Some(source) });
        }
        let is_min = name_is(name, "min");
        let mut exact_ty = values[0].ty.clone();
        let mut i: usize = 1;
        proof {
            assert(all.take(1).len() == 1);
        }
        while i < values.len()
            invariant
                1 <= i <= all.len(),
                all == values@,
                common_operand_type_of(all.take(i as int)) == Some(exact_ty),
            decreases all.len() - i,
        {
            proof {
                assert(all.take(i + 1).drop_last() =~= all.take(i as int));
            }
            exact_ty = match exact_common_operand_type(&exact_ty, &values[i].ty) {
                Some(t) => t,
                None => {
                    proof {
                        if common_operand_type_of(all) is Some {
                            lemma_common_prefix(all, i + 1);
                        }
                    }
                    let mut message = String::from_str("incompatible ");
                    message.append(name);
                    message.append(" operands");
                    return Err(Diagnostic { kind: DiagnosticKind::Semantic, message, source: Some(source) });
                },
            };
            i += 1;
        }
        proof {
            assert(all.take(i as int) =~= all);
        }
        let executable_ty = exact_ty.default_typed();
        ensure_bootstrap_value_type(&executable_ty, source)?;
        let ordered = match executable_ty.underlying() {
            Ty::Int(_) | Ty::Uint(_) | Ty::Float(_) | Ty::String => true,
            _ => false,
        };
        if !ordered {
            let mut message = String::from_str(name);
            message.append(" requires ordered numeric arguments");
            return Err(Diagnostic { kind: DiagnosticKind::Semantic, message, source: Some(source) });
        }
        let op = if is_min {
            BinaryOp::Min
        } else {
            BinaryOp::Max
        };
        let mut constant_count: usize = 0;
        while constant_count < values.len() && expr_constant(&values[constant_count]).is_some()
            invariant
                constant_count <= all.len(),
                all == values@,
                forall|k: int| 0 <= k < constant_count ==> (#[trigger] all[k]).spec_constant() is Some,
            decreases all.len() - constant_count,
        {
            constant_count += 1;
        }
        if constant_count == values.len() {
            let folded = fold_min_max_constants(name, op, &values, source)?;
            proof {
                lemma_int_spelling_roundtrip(min_max_int(name@ == "min"@, all));
            }
            let mut result = Expr {
                node,
                kind: ExprKind::Constant(folded),
                ty: exact_ty,
                category: ValueCategory::Constant,
                effects: Effects::none(),
                source,
            };
            let ghost before = result;
            if let Some(t) = expected {
                coerce_expr(&mut result, t, source)?;
                proof {
                    let m = min_max_int(name@ == "min"@, all);
                    assert(m % 1 == 0 && m / 1 == m);
                    assert(before.spec_constant() == Some(folded));
                }
            }
            return Ok(result);
        }
        proof {
            assert(!all_constant(all)) by {
                assert(all[constant_count as int].spec_constant() is None);
            }
        }
        if executable_ty == Ty::String {
            return Err(Diagnostic::unsupported("runtime string min/max is not yet supported", source));
        }
        let mut result = chain_min_max(op, values, &executable_ty, node, source)?;
        if let Some(t) = expected {
            coerce_expr(&mut result, t, source)?;
        }
        Ok(result)
    }
}

/// The numeric builtins.
pub open spec fn is_numeric_builtin(name: Seq<char>) -> bool {
    name == "min"@ || name == "max"@ || name == "complex"@ || name == "real"@ || name == "imag"@
}

/// The number of operands a numeric builtin takes, when it is fixed.
pub open spec fn numeric_builtin_arity(name: Seq<char>) -> Option<int> {
    if name == "complex"@ {
        Some(2)
    } else if name == "real"@ || name == "imag"@ {
        Some(1)
    } else {
        None
    }
}

impl FunctionLowerer {
    /// A call of a numeric builtin over its lowered operands.
    pub fn lower_numeric_builtin_call(
        &self,
        name: &str,
        values: Vec<Expr>,
        spread: bool,
        node: u64,
        source: SourceRef,
        expected: Option<&Ty>,
    ) -> (r: Result<Expr, Diagnostic>)
        requires
            forall|i: int| 0 <= i < values@.len() ==> (#[trigger] values@[i]).wf(),
        ensures
            spread ==> (r matches Err(d) && d.kind == DiagnosticKind::Semantic && d.message@ == "... is not valid in a call to "@
                + name@),
            !spread && !is_numeric_builtin(name@) ==> (r matches Err(d) && d.kind == DiagnosticKind::Backend),
            !spread ==> (numeric_builtin_arity(name@) matches Some(n) ==> (values@.len() != n ==> (r matches Err(d)
                && d.kind == DiagnosticKind::Semantic))),
            r matches Ok(e) ==> e.wf() && e.node == node && e.source == source,
            r matches Ok(e) ==> (expected matches Some(t) ==> e.ty == *t),
            !spread && (name@ == "min"@ || name@ == "max"@) ==> min_max_outcome(
                name@,
                values@,
                node,
                source,
                expected_ty(expected),
                r,
            ),
            !spread && name@ == "complex"@ && values@.len() != 2 ==> fails_with(
                r,
                DiagnosticKind::Semantic,
                "call to complex requires exactly two arguments"@,
                source,
            ),
            !spread && name@ == "complex"@ && values@.len() == 2 ==> complex_outcome(
                values@[0],
                values@[1],
                node,
                source,
                expected_ty(expected),
                r,
            ),
            !spread && (name@ == "real"@ || name@ == "imag"@) && values@.len() != 1 ==> fails_with(
                r,
                DiagnosticKind::Semantic,
                "call to "@ + name@ + " requires exactly one argument"@,
                source,
            ),
            !spread && (name@ == "real"@ || name@ == "imag"@) && values@.len() == 1 ==> component_outcome(
                name@,
                values@[0],
                node,
                source,
                expected_ty(expected),
                r,
            ),
    {
        if spread {
            let mut message = String::from_str("... is not valid in a call to ");
            message.append(name);
            return Err(Diagnostic { kind: DiagnosticKind::Semantic, message, source: Some(source) });
        }
        proof {
            reveal_strlit("min");
            reveal_strlit("max");
            reveal_strlit("complex");
            reveal_strlit("real");
            reveal_strlit("imag");
        }
        if name_is(name, "min") || name_is(name, "max") {
            proof {
                assert(name@.len() == 3);
                assert("complex"@.len() == 7 && "real"@.len() == 4 && "imag"@.len() == 4);
                assert(numeric_builtin_arity(name@) is None);
            }
            return self.lower_min_max(name, values, node, source, expected);
        }
        if name_is(name, "complex") {
            if values.len() != 2 {
                return Err(Diagnostic::semantic("call to complex requires exactly two arguments", source));
            }
            let mut values = values;
            let ghost all = values@;
            let imag_part = values.pop().unwrap();
            let real_part = values.pop().unwrap();
            proof {
                assert(real_part == all[0] && imag_part == all[1]);
            }
            return self.lower_complex(real_part, imag_part, node, source, expected);
        }
        if name_is(name, "real") || name_is(name, "imag") {
            if values.len() != 1 {
                let mut message = String::from_str("call to ");
                message.append(name);
                message.append(" requires exactly one argument");
                return Err(Diagnostic { kind: DiagnosticKind::Semantic, message, source: Some(source) });
            }
            let mut values = values;
            let ghost all = values@;
            let argument = values.pop().unwrap();
            proof {
                assert(argument == all[0]);
            }
            return self.lower_complex_component(name, argument, node, source, expected);
        }
        Err(Diagnostic::backend("unknown numeric built-in"))
    }
}

} // verus!
