//! Assignment operators.

use vstd::prelude::*;

use crate::bignum::int_spelling;
use crate::constant::ConstValue;
use crate::expressions::validate_binary_operator;
use crate::function::FunctionLowerer;
use crate::hir::{
    fails_with, AssignOp, AssignTarget, BinaryOp, Diagnostic, DiagnosticKind, Effects, Expr, ExprKind, NodeId,
    SourceRef, StmtKind, ValueCategory,
};
use crate::literals::lemma_int_spelling_roundtrip;
use crate::syntax::{SyntaxSource, Token};
use crate::types::Ty;

verus! {

/// The assignment operator that an assignment token spells.
pub open spec fn spec_assignment_op(token: Token) -> Option<AssignOp> {
    match token {
        Token::ASSIGN => Some(AssignOp::Assign),
        Token::ADD_ASSIGN => Some(AssignOp::Add),
        Token::SUB_ASSIGN => Some(AssignOp::Sub),
        Token::MUL_ASSIGN => Some(AssignOp::Mul),
        Token::QUO_ASSIGN => Some(AssignOp::Div),
        Token::REM_ASSIGN => Some(AssignOp::Rem),
        Token::AND_ASSIGN => Some(AssignOp::BitAnd),
        Token::OR_ASSIGN => Some(AssignOp::BitOr),
        Token::XOR_ASSIGN => Some(AssignOp::BitXor),
        Token::SHL_ASSIGN => Some(AssignOp::Shl),
        Token::SHR_ASSIGN => Some(AssignOp::Shr),
        Token::AND_NOT_ASSIGN => Some(AssignOp::AndNot),
        _ => None,
    }
}

/// The assignment operator of a token, or a diagnostic for a token that is
/// not one.
pub fn assignment_op(token: Token, source: SourceRef) -> (r: Result<AssignOp, Diagnostic>)
    ensures
        r matches Ok(op) ==> spec_assignment_op(token) == Some(op),
        r is Err ==> spec_assignment_op(token) is None,
        r matches Err(d) ==> d.kind == DiagnosticKind::Semantic && d.source == Some(source),
{
    match token {
        Token::ASSIGN => Ok(AssignOp::Assign),
        Token::ADD_ASSIGN => Ok(AssignOp::Add),
        Token::SUB_ASSIGN => Ok(AssignOp::Sub),
        Token::MUL_ASSIGN => Ok(AssignOp::Mul),
        Token::QUO_ASSIGN => Ok(AssignOp::Div),
        Token::REM_ASSIGN => Ok(AssignOp::Rem),
        Token::AND_ASSIGN => Ok(AssignOp::BitAnd),
        Token::OR_ASSIGN => Ok(AssignOp::BitOr),
        Token::XOR_ASSIGN => Ok(AssignOp::BitXor),
        Token::SHL_ASSIGN => Ok(AssignOp::Shl),
        Token::SHR_ASSIGN => Ok(AssignOp::Shr),
        Token::AND_NOT_ASSIGN => Ok(AssignOp::AndNot),
        _ => Err(Diagnostic::semantic("invalid assignment operator", source)),
    }
}

/// The constant `1` of a type, standing at a node.
pub open spec fn unit_step(e: Expr, ty: Ty, node: NodeId) -> bool {
    &&& e.spec_constant() matches Some(ConstValue::Int(s)) && s@ == "1"@
    &&& e.kind is Constant
    &&& e.wf()
    &&& e.ty == ty
    &&& e.node == node.local as u64
    &&& e.source == SourceRef::Node(node)
    &&& e.category == ValueCategory::Constant
    &&& e.effects == Effects::spec_none()
}

/// The operand types that `++` and `--` apply to.
pub open spec fn steppable(ty: Ty) -> bool {
    ty.spec_underlying() is Int || ty.spec_underlying() is Uint
}

impl FunctionLowerer {
    /// Lowers `target++` or `target--`, given the lowered target: an
    /// assignment that adds or subtracts the constant `1` of the target's
    /// type, on a node of its own.
    pub fn lower_inc_dec(
        &mut self,
        target: AssignTarget,
        token: Token,
        expression_source: SyntaxSource,
        source: SourceRef,
    ) -> (r: Result<StmtKind, Diagnostic>)
        requires
            old(self).wf(),
        ensures
            final(self).wf(),
            final(self).owner == old(self).owner,
            final(self).locals@ == old(self).locals@,
            final(self).scopes@ == old(self).scopes@,
            token != Token::INC && token != Token::DEC ==> fails_with(
                r,
                DiagnosticKind::Semantic,
                "invalid increment/decrement token"@,
                source,
            ),
            (token == Token::INC || token == Token::DEC) && target.ty is None ==> fails_with(
                r,
                DiagnosticKind::Semantic,
                "increment and decrement require a non-blank operand"@,
                source,
            ),
            (token == Token::INC || token == Token::DEC) && (target.ty matches Some(t) && !steppable(t))
                ==> fails_with(
                r,
                DiagnosticKind::Semantic,
                "increment and decrement require an integer operand"@,
                source,
            ),
            (token == Token::INC || token == Token::DEC) && (target.ty matches Some(t) && steppable(t))
                && old(self).next_node < u32::MAX ==> (r matches Ok(StmtKind::Assign { destinations, op, values })
                && destinations@ == seq![target] && op == (if token == Token::INC {
                AssignOp::Add
            } else {
                AssignOp::Sub
            }) && values@.len() == 1 && unit_step(
                values@[0],
                target.ty->0,
                NodeId { owner: old(self).owner, local: old(self).next_node },
            ) && final(self).next_node == old(self).next_node + 1),
            r is Err && (token == Token::INC || token == Token::DEC) && (target.ty matches Some(t) && steppable(t))
                ==> (r matches Err(d) && d.kind == DiagnosticKind::Backend),
    {
        let op = if token == Token::INC {
            AssignOp::Add
        } else if token == Token::DEC {
            AssignOp::Sub
        } else {
            return Err(Diagnostic::semantic("invalid increment/decrement token", source));
        };
        let ty = match &target.ty {
            Some(t) => t.clone(),
            None => {
                return Err(Diagnostic::semantic("increment and decrement require a non-blank operand", source));
            },
        };
        if !matches!(ty.underlying(), Ty::Int(_) | Ty::Uint(_)) {
            return Err(Diagnostic::semantic("increment and decrement require an integer operand", source));
        }
        let step_op = if token == Token::INC {
            BinaryOp::Add
        } else {
            BinaryOp::Sub
        };
        validate_binary_operator(step_op, &ty, source)?;
        let one_node = self.alloc_node(expression_source)?;
        let spelling = String::from_str("1");
        proof {
            reveal_strlit("1");
            lemma_int_spelling_roundtrip(1);
            assert(spelling@ =~= int_spelling(1));
        }
        let one = Expr {
            node: one_node.local as u64,
            kind: ExprKind::Constant(ConstValue::Int(spelling)),
            ty,
            category: ValueCategory::Constant,
            effects: Effects::none(),
            source: SourceRef::Node(one_node),
        };
        let ghost given = target;
        let ghost step = one;
        let mut destinations: Vec<AssignTarget> = Vec::new();
        destinations.push(target);
        let mut values: Vec<Expr> = Vec::new();
        values.push(one);
        assert(destinations@ =~= seq![given]);
        assert(values@ =~= seq![step]);
        Ok(StmtKind::Assign { destinations, op, values })
    }
}

} // verus!
