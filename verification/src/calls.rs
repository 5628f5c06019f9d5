//! Call syntax helpers.

use vstd::prelude::*;

use crate::syntax::{ExprSyntax, ExprSyntaxKind};

verus! {

/// The expression is a call, possibly in parentheses.
pub open spec fn spec_could_be_call(e: ExprSyntax) -> bool
    decreases e,
{
    match e.kind {
        ExprSyntaxKind::Call { .. } => true,
        ExprSyntaxKind::Paren(inner) => spec_could_be_call(*inner),
        _ => false,
    }
}

pub fn could_be_call(expression: &ExprSyntax) -> (r: bool)
    ensures
        r == spec_could_be_call(*expression),
    decreases expression,
{
    match &expression.kind {
        ExprSyntaxKind::Call { .. } => true,
        ExprSyntaxKind::Paren(inner) => could_be_call(inner),
        _ => false,
    }
}

} // verus!
