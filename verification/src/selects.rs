//! Channel `select` statements.

use vstd::prelude::*;

use crate::bignum::int_spelling;
use crate::constant::ConstValue;
use crate::function::{local_read, FunctionLowerer};
use crate::hir::{
    fails_with, BinaryOp, Diagnostic, DiagnosticKind, Effects, Expr, ExprKind, LocalId, NodeId, SourceRef,
    ValueCategory,
};
use crate::literals::{i64_spelling, lemma_int_spelling_roundtrip};
use crate::syntax::{ExprSyntax, ExprSyntaxKind, SelectCaseSyntax, SyntaxSource, Token};
use crate::types::{IntTy, Ty};

verus! {

/// The channel that a receive expression `<-ch` reads, parentheses aside.
pub open spec fn spec_receive_operand(e: ExprSyntax) -> Option<ExprSyntax>
    decreases e,
{
    match e.kind {
        ExprSyntaxKind::Paren(inner) => spec_receive_operand(*inner),
        ExprSyntaxKind::Unary { token, expression } => if token == Token::ARROW {
            Some(*expression)
        } else {
            None
        },
        _ => None,
    }
}

pub fn receive_operand(expression: &ExprSyntax) -> (r: Option<&ExprSyntax>)
    ensures
        match r {
            Some(e) => spec_receive_operand(*expression) == Some(*e),
            None => spec_receive_operand(*expression) is None,
        },
    decreases expression,
{
    match &expression.kind {
        ExprSyntaxKind::Paren(inner) => receive_operand(inner),
        ExprSyntaxKind::Unary { token: Token::ARROW, expression: channel } => Some(&**channel),
        _ => None,
    }
}

/// How a `select` statement runs without a scheduler.
#[derive(Clone, Copy, Debug, PartialEq, Eq, Structural)]
pub enum SelectPlan {
    /// There is only a default clause: its body runs.
    DefaultOnly { default: usize },
    /// The one communication case is tried without blocking, and the default
    /// clause runs when it cannot proceed.
    TryCommunication { communication: usize, default: usize },
}

/// Whether each case of a `select` has a communication; the others are
/// default clauses.
pub open spec fn case_kinds(cases: Seq<SelectCaseSyntax>) -> Seq<bool> {
    cases.map_values(|c: SelectCaseSyntax| c.communication is Some)
}

/// No two of the first `n` cases are of the same kind.
pub open spec fn no_repeat_before(kinds: Seq<bool>, n: int) -> bool {
    forall|i: int, j: int| 0 <= j < i < n ==> kinds[j] != kinds[i]
}

/// Case `i` is of the same kind as an earlier case.
pub open spec fn repeats_kind(kinds: Seq<bool>, i: int) -> bool {
    exists|j: int| 0 <= j < i && kinds[j] == kinds[i]
}

/// The error for a second case of the same kind.
pub open spec fn repeat_kind_error(communication: bool) -> (DiagnosticKind, Seq<char>) {
    if communication {
        (DiagnosticKind::Unsupported, "select with multiple communication cases requires channel arbitration"@)
    } else {
        (DiagnosticKind::Semantic, "select has multiple default clauses"@)
    }
}

/// At most one case of each kind: at most two cases, of different kinds.
proof fn lemma_no_repeat_bounds(kinds: Seq<bool>)
    requires
        no_repeat_before(kinds, kinds.len() as int),
    ensures
        kinds.len() <= 2,
        kinds.len() == 2 ==> kinds[0] != kinds[1],
{
    if kinds.len() > 2 {
        assert(kinds[0] != kinds[1]);
        assert(kinds[0] != kinds[2]);
        assert(kinds[1] != kinds[2]);
    }
}

/// Decides how a `select` statement is lowered from the kinds of its
/// cases, in order: a second communication case or a second default clause
/// is refused where it stands; then a lone default clause runs, a
/// communication case needs a default clause to fall back on, and an empty
/// select would block forever.
pub fn plan_select(cases: &[SelectCaseSyntax], source: SourceRef) -> (r: Result<SelectPlan, Diagnostic>)
    ensures
        forall|i: int|
            0 <= i < cases@.len() && no_repeat_before(case_kinds(cases@), i) && #[trigger] repeats_kind(
                case_kinds(cases@),
                i,
            ) ==> fails_with(
                r,
                repeat_kind_error(case_kinds(cases@)[i]).0,
                repeat_kind_error(case_kinds(cases@)[i]).1,
                source,
            ),
        no_repeat_before(case_kinds(cases@), cases@.len() as int) ==> {
            &&& cases@.len() <= 2
            &&& cases@.len() == 0 ==> fails_with(
                r,
                DiagnosticKind::Unsupported,
                "an empty select requires scheduler-backed blocking"@,
                source,
            )
            &&& cases@.len() == 1 && cases@[0].communication is None ==> (r matches Ok(p) && p
                == SelectPlan::DefaultOnly { default: 0 })
            &&& cases@.len() == 1 && cases@[0].communication is Some ==> fails_with(
                r,
                DiagnosticKind::Unsupported,
                "select without a default requires scheduler-backed blocking"@,
                source,
            )
            &&& cases@.len() == 2 ==> (r matches Ok(p) && p == if cases@[0].communication is Some {
                SelectPlan::TryCommunication { communication: 0, default: 1 }
            } else {
                SelectPlan::TryCommunication { communication: 1, default: 0 }
            })
        },
{
    let ghost kinds = case_kinds(cases@);
    let mut communication: Option<usize> = None;
    let mut default: Option<usize> = None;
    let mut i: usize = 0;
    while i < cases.len()
        invariant
            kinds == case_kinds(cases@),
            i <= cases@.len(),
            no_repeat_before(kinds, i as int),
            communication matches Some(c) ==> c < i && kinds[c as int],
            communication is None ==> forall|j: int| 0 <= j < i ==> !kinds[j],
            default matches Some(d) ==> d < i && !kinds[d as int],
            default is None ==> forall|j: int| 0 <= j < i ==> kinds[j],
        decreases cases@.len() - i,
    {
        assert(kinds[i as int] == cases@[i as int].communication is Some);
        if cases[i].communication.is_some() {
            if communication.is_some() {
                proof {
                    assert(repeats_kind(kinds, i as int));
                    assert forall|k: int|
                        0 <= k < cases@.len() && no_repeat_before(kinds, k) && #[trigger] repeats_kind(kinds, k)
                            implies k == i by {
                        if k < i {
                            let j = choose|j: int| 0 <= j < k && kinds[j] == kinds[k];
                            assert(kinds[j] != kinds[k]);
                        } else if k > i {
                            let j = choose|j: int| 0 <= j < i && kinds[j] == kinds[i as int];
                            assert(kinds[j] != kinds[i as int]);
                        }
                    }
                }
                return Err(
                    Diagnostic::unsupported(
                        "select with multiple communication cases requires channel arbitration",
                        source,
                    ),
                );
            }
            communication = Some(i);
        } else {
            if default.is_some() {
                proof {
                    assert(repeats_kind(kinds, i as int));
                    assert forall|k: int|
                        0 <= k < cases@.len() && no_repeat_before(kinds, k) && #[trigger] repeats_kind(kinds, k)
                            implies k == i by {
                        if k < i {
                            let j = choose|j: int| 0 <= j < k && kinds[j] == kinds[k];
                            assert(kinds[j] != kinds[k]);
                        } else if k > i {
                            let j = choose|j: int| 0 <= j < i && kinds[j] == kinds[i as int];
                            assert(kinds[j] != kinds[i as int]);
                        }
                    }
                }
                return Err(Diagnostic::semantic("select has multiple default clauses", source));
            }
            default = Some(i);
        }
        i += 1;
    }
    proof {
        lemma_no_repeat_bounds(kinds);
        assert forall|k: int| 0 <= k < cases@.len() && no_repeat_before(kinds, k) implies !#[trigger] repeats_kind(
            kinds,
            k,
        ) by {
            if repeats_kind(kinds, k) {
                let j = choose|j: int| 0 <= j < k && kinds[j] == kinds[k];
                assert(kinds[j] != kinds[k]);
            }
        }
        if cases@.len() > 0 {
            assert(kinds[0] == cases@[0].communication is Some);
        }
        if cases@.len() > 1 {
            assert(kinds[1] == cases@[1].communication is Some);
        }
    }
    match (communication, default) {
        (None, None) => Err(Diagnostic::unsupported("an empty select requires scheduler-backed blocking", source)),
        (None, Some(d)) => Ok(SelectPlan::DefaultOnly { default: d }),
        (Some(_), None) => Err(
            Diagnostic::unsupported("select without a default requires scheduler-backed blocking", source),
        ),
        (Some(c), Some(d)) => Ok(SelectPlan::TryCommunication { communication: c, default: d }),
    }
}

/// The comparison of a select status with a constant, built on three
/// nodes allocated from `first` on: the status read, the constant, and the
/// comparison.
pub open spec fn status_comparison(e: Expr, owner: u64, first: u32, status: LocalId, op: BinaryOp, expected: i64) -> bool {
    let status_node = NodeId { owner, local: first };
    let expected_node = NodeId { owner, local: (first + 1) as u32 };
    let node = NodeId { owner, local: (first + 2) as u32 };
    &&& e.kind matches ExprKind::Binary { op: o, left, right } && o == op && *left == local_read(
        status_node,
        status,
        Ty::Int(IntTy::Int),
    ) && right.node == expected_node.local as u64 && right.ty == Ty::Int(IntTy::Int) && right.category
        == ValueCategory::Constant && right.effects == Effects::spec_none() && right.source == SourceRef::Node(
        expected_node,
    ) && right.wf() && (right.spec_constant() matches Some(ConstValue::Int(s)) && s@ == int_spelling(
        expected as int,
    ))
    &&& e.node == node.local as u64
    &&& e.ty == Ty::Bool
    &&& e.category == ValueCategory::Value
    &&& e.effects == local_read(status_node, status, Ty::Int(IntTy::Int)).effects
    &&& e.source == SourceRef::Node(node)
}

impl FunctionLowerer {
    /// Compares the status a non-blocking channel operation left in a local
    /// with a constant.
    pub fn select_status_comparison(
        &mut self,
        status: LocalId,
        op: BinaryOp,
        expected: i64,
        syntax_source: SyntaxSource,
    ) -> (r: Result<Expr, Diagnostic>)
        requires
            old(self).wf(),
        ensures
            final(self).wf(),
            final(self).owner == old(self).owner,
            final(self).locals@ == old(self).locals@,
            final(self).scopes@ == old(self).scopes@,
            old(self).next_node + 3 <= u32::MAX ==> (r matches Ok(e) && e.wf() && status_comparison(
                e,
                old(self).owner,
                old(self).next_node,
                status,
                op,
                expected,
            ) && final(self).next_node == old(self).next_node + 3),
            r matches Err(d) ==> d.kind == DiagnosticKind::Backend,
    {
        let ghost first = self.next_node;
        let ghost status_id = status;
        let ghost wanted = expected;
        let status_node = self.alloc_node(syntax_source)?;
        let status = self.local_expr(status_node, status, Ty::Int(IntTy::Int));
        let expected_node = self.alloc_node(syntax_source)?;
        let spelling = i64_spelling(expected);
        proof {
            lemma_int_spelling_roundtrip(expected as int);
        }
        let expected = Expr {
            node: expected_node.local as u64,
            kind: ExprKind::Constant(ConstValue::Int(spelling)),
            ty: Ty::Int(IntTy::Int),
            category: ValueCategory::Constant,
            effects: Effects::none(),
            source: SourceRef::Node(expected_node),
        };
        let effects = status.effects.union(expected.effects);
        let node = self.alloc_node(syntax_source)?;
        let result = Expr {
            node: node.local as u64,
            kind: ExprKind::Binary { op, left: Box::new(status), right: Box::new(expected) },
            ty: Ty::Bool,
            category: ValueCategory::Value,
            effects,
            source: SourceRef::Node(node),
        };
        proof {
            assert(expected.wf());
            assert(status.wf());
            assert(result.wf());
            assert(status_comparison(result, self.owner, first, status_id, op, wanted));
        }
        Ok(result)
    }
}

} // verus!
