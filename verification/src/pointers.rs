//! Pointer types and the effects of pointer operations.

use vstd::prelude::*;

use crate::channels::expected_ty;
use crate::conversions::{effects_of, join_argument_effects, lemma_effects_of_one, lemma_effects_of_two};
use crate::expressions::{
    builtin_call, call_args, coerce_expr, coerced_from, coercible, expected_builtin_call, finish_builtin_call,
    spec_is_assignable,
};
use crate::function::FunctionLowerer;
use crate::hir::{
    fails_with, AssignTarget, AssignTargetKind, Builtin, Callee, Diagnostic, DiagnosticKind, Effects, Expr, ExprKind,
    NodeId, SourceRef, StmtKind, ValueCategory,
};
use crate::maps::operation_effects;
use crate::syntax::{ExprSyntax, ExprSyntaxKind, SyntaxSource, Token};
use crate::types::{IntTy, Ty};

verus! {

/// `*int`.
pub fn int_pointer_ty() -> (r: Ty)
    ensures
        r == Ty::Pointer(Box::new(Ty::Int(IntTy::Int))),
{
    Ty::Pointer(Box::new(Ty::Int(IntTy::Int)))
}

/// The effects of a pointer operation: it calls the runtime, and writes,
/// allocates or panics as the operation says, besides the effects of its
/// operands.
pub fn pointer_effects(arguments: &[&Expr], writes: bool, allocates: bool, panics: bool) -> (r: Effects)
    ensures
        r == effects_of(operation_effects(false, writes, allocates, panics), arguments@.map_values(|e: &Expr| *e)),
{
    let base = Effects {
        may_call: true,
        may_allocate: allocates,
        may_block: false,
        may_panic: panics,
        may_read: false,
        may_write: writes,
    };
    join_argument_effects(base, arguments)
}

/// The pointee type of a pointer type, by its underlying type.
pub open spec fn pointee(ty: Ty) -> Option<Ty> {
    match ty.spec_underlying() {
        Ty::Pointer(element) => Some(*element),
        _ => None,
    }
}

/// Whether a pointer type points at a value whose underlying type is `int`,
/// the one pointee that the runtime represents.
pub open spec fn points_to_int(ty: Ty) -> bool {
    pointee(ty) matches Some(element) && element.spec_underlying() == Ty::Int(IntTy::Int)
}

/// The operands of an indirect assignment `*pointer = value`: the pointer
/// expression and the value.
pub open spec fn spec_pointer_assignment_operands(left: Seq<ExprSyntax>, right: Seq<ExprSyntax>) -> Option<
    (ExprSyntax, ExprSyntax),
> {
    if left.len() == 1 && right.len() == 1 {
        match left[0].kind {
            ExprSyntaxKind::Unary { token: Token::MUL, expression } => Some((*expression, right[0])),
            _ => None,
        }
    } else {
        None
    }
}

pub fn pointer_assignment_operands<'a>(left: &'a [ExprSyntax], right: &'a [ExprSyntax]) -> (r: Option<
    (&'a ExprSyntax, &'a ExprSyntax),
>)
    ensures
        r is None <==> spec_pointer_assignment_operands(left@, right@) is None,
        r matches Some((p, v)) ==> spec_pointer_assignment_operands(left@, right@) == Some((*p, *v)),
{
    if left.len() != 1 || right.len() != 1 {
        return None;
    }
    match &left[0].kind {
        ExprSyntaxKind::Unary { token: Token::MUL, expression } => Some((&**expression, &right[0])),
        _ => None,
    }
}

impl FunctionLowerer {
    /// Lowers `*pointer` from the lowered pointer, for pointers to `int`.
    pub fn lower_pointer_deref(&self, pointer: Expr, node: u64, source: SourceRef, expected: Option<&Ty>) -> (r:
        Result<Expr, Diagnostic>)
        requires
            pointer.wf(),
        ensures
            pointee(pointer.ty) is None ==> fails_with(
                r,
                DiagnosticKind::Semantic,
                "cannot dereference non-pointer value"@,
                source,
            ),
            pointee(pointer.ty) is Some && !points_to_int(pointer.ty) ==> fails_with(
                r,
                DiagnosticKind::Unsupported,
                "pointer dereference currently supports *int"@,
                source,
            ),
            r is Ok <==> points_to_int(pointer.ty) && (expected matches Some(t) ==> spec_is_assignable(
                pointee(pointer.ty)->0,
                *t,
            )),
            r matches Ok(e) ==> e.wf() && expected_builtin_call(
                e,
                Builtin::PointerI64Get,
                seq![pointer],
                pointee(pointer.ty)->0,
                node,
                source,
                operation_effects(false, false, false, true).spec_union(pointer.effects),
                expected_ty(expected),
            ),
    {
        let element = match pointer.ty.underlying() {
            Ty::Pointer(element) => element,
            _ => {
                return Err(Diagnostic::semantic("cannot dereference non-pointer value", source));
            },
        };
        if !matches!(element.underlying(), Ty::Int(IntTy::Int)) {
            return Err(Diagnostic::unsupported("pointer dereference currently supports *int", source));
        }
        let ty = (**element).clone();
        let operands: [&Expr; 1] = [&pointer];
        let effects = pointer_effects(&operands, false, false, true);
        proof {
            assert(operands@.map_values(|e: &Expr| *e) =~= seq![pointer]);
            lemma_effects_of_one(operation_effects(false, false, false, true), pointer);
        }
        let ghost lowered = pointer;
        let mut args: Vec<Expr> = Vec::new();
        args.push(pointer);
        assert(args@ =~= seq![lowered]);
        finish_builtin_call(Builtin::PointerI64Get, args, ty, node, source, effects, expected)
    }

    /// Lowers an indirect assignment `*pointer = value` from the lowered
    /// pointer and value, for pointers to `int`; the value is coerced to the
    /// pointee type, and the store takes the pointer's node.
    pub fn lower_pointer_assignment(&self, token: Token, pointer: Expr, value: Expr, source: SourceRef) -> (r:
        Result<StmtKind, Diagnostic>)
        requires
            pointer.wf(),
            value.wf(),
        ensures
            token != Token::ASSIGN ==> fails_with(
                r,
                DiagnosticKind::Unsupported,
                "pointer assignment currently requires ="@,
                source,
            ),
            token == Token::ASSIGN && pointee(pointer.ty) is None ==> fails_with(
                r,
                DiagnosticKind::Semantic,
                "indirect assignment requires a pointer"@,
                source,
            ),
            token == Token::ASSIGN && pointee(pointer.ty) is Some && !points_to_int(pointer.ty) ==> fails_with(
                r,
                DiagnosticKind::Unsupported,
                "pointer assignment currently supports *int"@,
                source,
            ),
            r is Ok <==> token == Token::ASSIGN && points_to_int(pointer.ty) && coercible(
                value,
                pointee(pointer.ty)->0,
            ),
            r matches Ok(StmtKind::Expr(e)) ==> e.wf() && call_args(e).len() == 2 && call_args(e)[0] == pointer
                && coerced_from(call_args(e)[1], value, pointee(pointer.ty)->0) && builtin_call(
                e,
                Builtin::PointerI64Set,
                call_args(e),
                Ty::Unit,
                pointer.node,
                source,
                operation_effects(false, true, false, true).spec_union(pointer.effects).spec_union(value.effects),
            ),
    {
        if token != Token::ASSIGN {
            return Err(Diagnostic::unsupported("pointer assignment currently requires =", source));
        }
        let element = match pointer.ty.underlying() {
            Ty::Pointer(element) => element,
            _ => {
                return Err(Diagnostic::semantic("indirect assignment requires a pointer", source));
            },
        };
        if !matches!(element.underlying(), Ty::Int(IntTy::Int)) {
            return Err(Diagnostic::unsupported("pointer assignment currently supports *int", source));
        }
        let element = (**element).clone();
        let mut value = value;
        coerce_expr(&mut value, &element, source)?;
        let operands: [&Expr; 2] = [&pointer, &value];
        let effects = pointer_effects(&operands, true, false, true);
        proof {
            assert(operands@.map_values(|e: &Expr| *e) =~= seq![pointer, value]);
            lemma_effects_of_two(operation_effects(false, true, false, true), pointer, value);
        }
        let node = pointer.node;
        let ghost parts = seq![pointer, value];
        let mut args: Vec<Expr> = Vec::new();
        args.push(pointer);
        args.push(value);
        assert(args@ =~= parts);
        Ok(
            StmtKind::Expr(
                Expr {
                    node,
                    kind: ExprKind::Call { callee: Callee::Builtin(Builtin::PointerI64Set), args },
                    ty: Ty::Unit,
                    category: ValueCategory::Value,
                    effects,
                    source,
                },
            ),
        )
    }
}

impl FunctionLowerer {
    /// The destination of an indirect assignment `*pointer = ...`, given the
    /// lowered pointer: it stores through a pointer to `int`, on a node of
    /// its own.
    pub fn lower_pointer_assignment_target(
        &mut self,
        pointer: Expr,
        expression_source: SyntaxSource,
        source: SourceRef,
    ) -> (r: Result<AssignTarget, Diagnostic>)
        requires
            old(self).wf(),
        ensures
            final(self).wf(),
            final(self).owner == old(self).owner,
            final(self).locals@ == old(self).locals@,
            final(self).scopes@ == old(self).scopes@,
            pointee(pointer.ty) is None ==> fails_with(
                r,
                DiagnosticKind::Semantic,
                "indirect assignment requires a pointer"@,
                source,
            ),
            pointee(pointer.ty) is Some && !points_to_int(pointer.ty) ==> fails_with(
                r,
                DiagnosticKind::Unsupported,
                "indirect assignment currently supports pointers to Go int values"@,
                source,
            ),
            points_to_int(pointer.ty) && old(self).next_node < u32::MAX ==> (r matches Ok(t) && t.kind
                == AssignTargetKind::Pointer { pointer, set: Builtin::PointerI64Set } && t.ty == Some(
                pointee(pointer.ty)->0,
            ) && t.source == SourceRef::Node(NodeId { owner: old(self).owner, local: old(self).next_node })
                && final(self).next_node == old(self).next_node + 1),
            points_to_int(pointer.ty) && r is Err ==> (r matches Err(d) && d.kind == DiagnosticKind::Backend),
    {
        let element = match pointer.ty.underlying() {
            Ty::Pointer(element) => element,
            _ => {
                return Err(Diagnostic::semantic("indirect assignment requires a pointer", source));
            },
        };
        if !matches!(element.underlying(), Ty::Int(IntTy::Int)) {
            return Err(
                Diagnostic::unsupported("indirect assignment currently supports pointers to Go int values", source),
            );
        }
        let element_ty = (**element).clone();
        let node = self.alloc_node(expression_source)?;
        Ok(
            AssignTarget {
                kind: AssignTargetKind::Pointer { pointer, set: Builtin::PointerI64Set },
                ty: Some(element_ty),
                source: SourceRef::Node(node),
            },
        )
    }
}

} // verus!
