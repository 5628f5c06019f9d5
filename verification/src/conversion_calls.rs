//! Typed value conversions `T(x)` that select explicit runtime
//! representations: string and slice conversions become runtime calls,
//! representable constants fold, and other permitted conversions keep the
//! value's representation.

use vstd::prelude::*;

use crate::conversions::{
    effects_of, is_byte_slice_type, lemma_effects_of_one, lemma_effects_of_two, is_integer_conversion, is_numeric_conversion, is_rune_slice_type,
    is_string_conversion_source, is_string_type, spec_is_byte_slice_type,
    spec_is_integer_conversion, spec_is_numeric_conversion, spec_is_rune_slice_type,
};
use crate::constant::normalized_as;
use crate::expressions::{
    call_args, coerce_expr, coerced_from, coercible, expected_builtin_call, finish_builtin_call, is_assignable,
    spec_is_assignable,
};
use crate::function::FunctionLowerer;
use crate::hir::{Builtin, Diagnostic, DiagnosticKind, Effects, Expr, ExprKind, NodeId, SourceRef, ValueCategory, fails_with};
use crate::syntax::SyntaxSource;
use crate::types::{ty_equal, Ty, UintTy, UntypedTy};

verus! {

/// How a conversion of a lowered value to a target type is represented.
#[derive(Clone, Copy, Debug, PartialEq, Eq, Structural)]
pub enum ConversionPath {
    /// An integer to a string: the character with that code point.
    StringFromRune,
    /// A byte slice to a string.
    StringFromBytes,
    /// A rune slice to a string.
    StringFromRunes,
    /// A string to a rune slice.
    StringToRunes,
    /// A string to a byte slice: appended to an empty byte slice.
    StringToBytes,
    /// A constant that the target represents: folded.
    Constant,
    /// A value assignable to the target: coerced.
    Assignable,
    /// Identical underlying types, or an integer or numeric conversion.
    Retyped,
    /// Any other conversion: it would change the representation.
    Refused,
}

pub open spec fn byte_slice() -> Ty {
    Ty::Slice(Box::new(Ty::Uint(UintTy::Uint8)))
}

pub open spec fn string_source(ty: Ty) -> bool {
    ty.spec_underlying() == Ty::String || ty == Ty::Untyped(UntypedTy::String)
}

/// The representation a conversion of `a` to `target` takes, in the order
/// the cases are tried.
pub open spec fn conversion_path(target: Ty, a: Expr) -> ConversionPath {
    let to_string = target.spec_underlying() == Ty::String;
    if to_string && a.ty.spec_is_integer() {
        ConversionPath::StringFromRune
    } else if to_string && spec_is_byte_slice_type(a.ty) {
        ConversionPath::StringFromBytes
    } else if to_string && spec_is_rune_slice_type(a.ty) {
        ConversionPath::StringFromRunes
    } else if spec_is_rune_slice_type(target) && string_source(a.ty) {
        ConversionPath::StringToRunes
    } else if target == byte_slice() && string_source(a.ty) {
        ConversionPath::StringToBytes
    } else if a.kind matches ExprKind::Constant(v) && v.spec_representable(target) {
        ConversionPath::Constant
    } else if spec_is_assignable(a.ty, target) {
        ConversionPath::Assignable
    } else if a.ty.spec_underlying() == target.spec_underlying() || spec_is_integer_conversion(a.ty, target)
        || spec_is_numeric_conversion(a.ty, target) {
        ConversionPath::Retyped
    } else {
        ConversionPath::Refused
    }
}

/// The effects of a runtime string or slice conversion before its
/// arguments: a call that allocates, and writes when it appends.
pub open spec fn runtime_base_spec(writes: bool) -> Effects {
    Effects {
        may_call: true,
        may_allocate: true,
        may_block: false,
        may_panic: false,
        may_read: false,
        may_write: writes,
    }
}

/// The effects of a runtime string or slice conversion of its arguments.
pub open spec fn runtime_effects(writes: bool, args: Seq<Expr>) -> Effects {
    effects_of(runtime_base_spec(writes), args)
}

fn runtime_base(writes: bool) -> (r: Effects)
    ensures
        r == runtime_base_spec(writes),
{
    Effects {
        may_call: true,
        may_allocate: true,
        may_block: false,
        may_panic: false,
        may_read: false,
        may_write: writes,
    }
}

/// The argument of a string conversion: untyped strings become `string`.
pub open spec fn string_argument_ok(a: Expr) -> bool {
    a.ty == Ty::Untyped(UntypedTy::String) ==> coercible(a, Ty::String)
}

pub open spec fn string_argument(arg: Expr, a: Expr) -> bool {
    if a.ty == Ty::Untyped(UntypedTy::String) {
        coerced_from(arg, a, Ty::String)
    } else {
        arg == a
    }
}

/// What converting the lowered value `a` to `target` gives, for a lowerer
/// whose next node id is `next`.
pub open spec fn conversion_outcome(
    target: Ty,
    a: Expr,
    node: u64,
    source: SourceRef,
    expected: Option<Ty>,
    next: u32,
    r: Result<Expr, Diagnostic>,
) -> bool {
    let assignable_to_expected = expected matches Some(t) ==> spec_is_assignable(target, t);
    match conversion_path(target, a) {
        ConversionPath::StringFromRune => {
            let d = a.ty.spec_default_typed();
            &&& r is Ok <==> (a.ty == d || coercible(a, d)) && assignable_to_expected
            &&& r matches Ok(e) ==> call_args(e).len() == 1 && (if a.ty == d {
                call_args(e)[0] == a
            } else {
                coerced_from(call_args(e)[0], a, d)
            }) && expected_builtin_call(
                e,
                Builtin::StringFromRune,
                call_args(e),
                target,
                node,
                source,
                runtime_effects(false, call_args(e)),
                expected,
            )
        },
        ConversionPath::StringFromBytes => {
            &&& r is Ok <==> assignable_to_expected
            &&& r matches Ok(e) ==> call_args(e) == seq![a] && expected_builtin_call(
                e,
                Builtin::StringFromSliceU8,
                seq![a],
                target,
                node,
                source,
                runtime_effects(false, seq![a]),
                expected,
            )
        },
        ConversionPath::StringFromRunes => {
            &&& r is Ok <==> assignable_to_expected
            &&& r matches Ok(e) ==> call_args(e) == seq![a] && expected_builtin_call(
                e,
                Builtin::StringFromSliceRunes,
                seq![a],
                target,
                node,
                source,
                runtime_effects(false, seq![a]),
                expected,
            )
        },
        ConversionPath::StringToRunes => {
            &&& r is Ok <==> string_argument_ok(a) && assignable_to_expected
            &&& r matches Ok(e) ==> call_args(e).len() == 1 && string_argument(call_args(e)[0], a)
                && expected_builtin_call(
                e,
                Builtin::StringToSliceRunes,
                call_args(e),
                target,
                node,
                source,
                runtime_effects(false, call_args(e)),
                expected,
            )
        },
        ConversionPath::StringToBytes => {
            &&& r is Ok <==> string_argument_ok(a) && next < u32::MAX && (expected matches Some(t)
                ==> spec_is_assignable(byte_slice(), t))
            &&& (!string_argument_ok(a) ==> (r matches Err(d) && d.kind == DiagnosticKind::Semantic))
            &&& (string_argument_ok(a) && next == u32::MAX ==> (r matches Err(d) && d.kind
                == DiagnosticKind::Backend))
            &&& r matches Ok(e) ==> call_args(e).len() == 2 && (call_args(e)[0].kind matches ExprKind::SliceLiteralU8(
                bytes,
            ) && bytes@.len() == 0) && call_args(e)[0].node == next && call_args(e)[0].ty == byte_slice() && string_argument(
                call_args(e)[1],
                a,
            ) && expected_builtin_call(
                e,
                Builtin::SliceU8AppendString,
                call_args(e),
                byte_slice(),
                node,
                source,
                runtime_effects(true, call_args(e)),
                expected,
            )
        },
        ConversionPath::Constant => {
            &&& expected is None ==> r is Ok
            &&& r matches Ok(e) ==> e.node == a.node && e.source == a.source && e.spec_constant() is Some
                && (expected is None ==> e.ty == target && e.category == a.category && e.effects == a.effects
                && (a.kind matches ExprKind::Constant(v) && e.kind matches ExprKind::Constant(w) && normalized_as(
                v,
                target,
                w,
            )))
        },
        ConversionPath::Assignable => {
            &&& expected is None ==> (r is Ok <==> coercible(a, target))
            &&& r is Ok ==> coercible(a, target)
            &&& r matches Ok(e) ==> e.node == a.node && e.source == a.source && (expected is None ==> e.ty == target)
        },
        ConversionPath::Retyped => {
            &&& r is Ok <==> (expected matches Some(t) ==> spec_is_assignable(target, t))
            &&& r matches Ok(e) ==> (expected is None ==> e.kind == ExprKind::Conversion { value: Box::new(a) }
                && e.ty == target && e.node == node && e.source == source && e.category == ValueCategory::Value
                && e.effects == a.effects)
        },
        ConversionPath::Refused => r matches Err(d) && d.kind == DiagnosticKind::Unsupported,
    }
}

/// A vector of one expression.
fn single(e: Expr) -> (v: Vec<Expr>)
    ensures
        v@ == seq![e],
{
    let mut v = Vec::new();
    v.push(e);
    assert(v@ =~= seq![e]);
    v
}

/// A vector of two expressions, in order.
fn pair(a: Expr, b: Expr) -> (v: Vec<Expr>)
    ensures
        v@ == seq![a, b],
{
    let mut v = Vec::new();
    v.push(a);
    v.push(b);
    assert(v@ =~= seq![a, b]);
    v
}

impl FunctionLowerer {
    /// Lowers the conversion `target(argument)` from the target type and
    /// the lowered argument, then coerces the result to the type the context
    /// expects.
    #[verifier::spinoff_prover]
    #[verifier::rlimit(100)]
    pub fn lower_conversion_call(
        &mut self,
        target: Ty,
        arguments: Vec<Expr>,
        spread: bool,
        callee_source: SyntaxSource,
        node: u64,
        source: SourceRef,
        expected: Option<&Ty>,
    ) -> (r: Result<Expr, Diagnostic>)
        requires
            old(self).wf(),
            forall|i: int| 0 <= i < arguments@.len() ==> (#[trigger] arguments@[i]).wf(),
        ensures
            final(self).wf(),
            *final(self) == (FunctionLowerer {
                next_node: final(self).next_node,
                source_plan: final(self).source_plan,
                ..*old(self)
            }),
            spread ==> fails_with(r, DiagnosticKind::Semantic, "conversions do not accept ..."@, source),
            !spread && arguments@.len() != 1 ==> fails_with(
                r,
                DiagnosticKind::Semantic,
                "a conversion requires exactly one argument"@,
                source,
            ),
            !spread && arguments@.len() == 1 && target.spec_underlying() is Interface ==> (r matches Err(d) && d.kind
                == DiagnosticKind::Unsupported),
            !spread && arguments@.len() == 1 && !(target.spec_underlying() is Interface) ==> conversion_outcome(
                target,
                arguments@[0],
                node,
                source,
                match expected {
                    Some(t) => Some(*t),
                    None => None,
                },
                old(self).next_node,
                r,
            ),
            r matches Ok(e) ==> e.wf() && match expected {
                Some(t) => e.ty == *t,
                None => e.ty == target,
            },
    {
        if spread {
            return Err(Diagnostic::semantic("conversions do not accept ...", source));
        }
        if arguments.len() != 1 {
            return Err(Diagnostic::semantic("a conversion requires exactly one argument", source));
        }
        if matches!(target.underlying(), Ty::Interface(_)) {
            return Err(
                Diagnostic::unsupported("conversion to an interface type needs interface boxing", source),
            );
        }
        let ghost given = arguments@;
        let mut arguments = arguments;
        let mut argument = arguments.pop().unwrap();
        assert(argument == given[0]);
        let ghost a = argument;
        if is_string_type(&target) && argument.ty.is_integer() {
            let default_ty = argument.ty.default_typed();
            if !crate::types::ty_equal(&argument.ty, &default_ty) {
                coerce_expr(&mut argument, &default_ty, source)?;
            }
            let effects = runtime_base(false).union(argument.effects);
            proof {
                lemma_effects_of_one(runtime_base_spec(false), argument);
            }
            return finish_builtin_call(Builtin::StringFromRune, single(argument), target, node, source, effects, expected);
        }
        if is_string_type(&target) && is_byte_slice_type(&argument.ty) {
            let effects = runtime_base(false).union(argument.effects);
            proof {
                lemma_effects_of_one(runtime_base_spec(false), argument);
            }
            return finish_builtin_call(Builtin::StringFromSliceU8, single(argument), target, node, source, effects, expected);
        }
        if is_string_type(&target) && is_rune_slice_type(&argument.ty) {
            let effects = runtime_base(false).union(argument.effects);
            proof {
                lemma_effects_of_one(runtime_base_spec(false), argument);
            }
            return finish_builtin_call(
                Builtin::StringFromSliceRunes,
                single(argument),
                target,
                node,
                source,
                effects,
                expected,
            );
        }
        if is_rune_slice_type(&target) && is_string_conversion_source(&argument.ty) {
            if matches!(argument.ty, Ty::Untyped(UntypedTy::String)) {
                coerce_expr(&mut argument, &Ty::String, source)?;
            }
            let effects = runtime_base(false).union(argument.effects);
            proof {
                lemma_effects_of_one(runtime_base_spec(false), argument);
            }
            return finish_builtin_call(
                Builtin::StringToSliceRunes,
                single(argument),
                target,
                node,
                source,
                effects,
                expected,
            );
        }
        let byte_slice_ty = Ty::Slice(Box::new(Ty::Uint(UintTy::Uint8)));
        if crate::types::ty_equal(&target, &byte_slice_ty) && is_string_conversion_source(&argument.ty) {
            if matches!(argument.ty, Ty::Untyped(UntypedTy::String)) {
                coerce_expr(&mut argument, &Ty::String, source)?;
            }
            let empty_node = self.alloc_node(callee_source)?;
            let empty = Expr {
                node: empty_node.local as u64,
                kind: ExprKind::SliceLiteralU8(Vec::new()),
                ty: byte_slice_ty.clone(),
                category: ValueCategory::Value,
                effects: Effects {
                    may_call: false,
                    may_allocate: true,
                    may_block: false,
                    may_panic: false,
                    may_read: false,
                    may_write: false,
                },
                source: SourceRef::Node(empty_node),
            };
            let effects = runtime_base(true).union(empty.effects).union(argument.effects);
            proof {
                lemma_effects_of_two(runtime_base_spec(true), empty, argument);
            }
            return finish_builtin_call(
                Builtin::SliceU8AppendString,
                pair(empty, argument),
                byte_slice_ty,
                node,
                source,
                effects,
                expected,
            );
        }
        let folded = match &argument.kind {
            ExprKind::Constant(value) => if value.is_representable_as(&target) {
                Some(value.normalized_for(&target))
            } else {
                None
            },
            _ => None,
        };
        let mut result = if let Some(value) = folded {
            Expr {
                node: argument.node,
                kind: ExprKind::Constant(value),
                ty: target,
                category: argument.category,
                effects: argument.effects,
                source: argument.source,
            }
        } else if is_assignable(&argument.ty, &target) {
            coerce_expr(&mut argument, &target, source)?;
            argument
        } else if ty_equal(argument.ty.underlying(), target.underlying()) || is_integer_conversion(
            &argument.ty,
            &target,
        ) || is_numeric_conversion(&argument.ty, &target) {
            let effects = argument.effects;
            Expr {
                node,
                kind: ExprKind::Conversion { value: Box::new(argument) },
                ty: target,
                category: ValueCategory::Value,
                effects,
                source,
            }
        } else {
            return Err(
                Diagnostic::unsupported("conversion requires a representation change", source),
            );
        };
        if let Some(t) = expected {
            coerce_expr(&mut result, t, source)?;
        }
        Ok(result)
    }
}

} // verus!
