//! Range statements over iterator functions.

use vstd::prelude::*;

use crate::bignum::int_spelling;
use crate::function::FunctionLowerer;
use crate::constant::ConstValue;
use crate::hir::{
    fails_with, Diagnostic, DiagnosticKind, Effects, Expr, ExprKind, NodeId, SourceRef, Stmt, StmtKind, ValueCategory,
};
use crate::literals::u64_spelling;
use crate::syntax::{ExprSyntax, FunctionHeaderSyntax, SyntaxSource, Token};
use crate::types::Ty;

verus! {

/// The name of the yield parameter of a range iterator's signature: its
/// single parameter, which must have exactly one name.
pub fn iterator_parameter_name(header: &FunctionHeaderSyntax, source: SourceRef) -> (r: Result<String, Diagnostic>)
    ensures
        header.params.fields@.len() != 1 ==> (r matches Err(d) && d.kind == DiagnosticKind::Backend),
        header.params.fields@.len() == 1 ==> match header.params.fields@[0].names {
            None => r matches Err(d) && d.kind == DiagnosticKind::Semantic && d.message@
                == "range iterator yield parameter must be named"@,
            Some(names) => if names@.len() == 1 {
                r matches Ok(n) && n@ == names@[0].name@
            } else {
                r matches Err(d) && d.kind == DiagnosticKind::Semantic && d.message@
                    == "range iterator must declare exactly one yield parameter"@
            },
        },
{
    if header.params.fields.len() != 1 {
        return Err(Diagnostic::backend("range iterator signature changed after type checking"));
    }
    let names = match &header.params.fields[0].names {
        Some(names) => names,
        None => {
            return Err(Diagnostic::semantic("range iterator yield parameter must be named", source));
        },
    };
    if names.len() != 1 {
        return Err(Diagnostic::semantic("range iterator must declare exactly one yield parameter", source));
    }
    Ok(names[0].name.clone())
}

/// The number of iteration variables a range clause declares.
pub open spec fn range_variable_count(key: bool, value: bool) -> int {
    (if key {
        1int
    } else {
        0
    }) + (if value {
        1int
    } else {
        0
    })
}

/// The message for a range clause with more variables than its iterator
/// yields values.
pub open spec fn too_many_range_variables(variables: int, yielded: int) -> Seq<char> {
    "range clause declares "@ + int_spelling(variables) + " variables but iterator yields "@ + int_spelling(yielded)
        + " values"@
}

impl FunctionLowerer {
    /// Checks the clause of a range over an iterator function that yields
    /// `yielded` values: it declares at most that many variables, and has an
    /// assignment token exactly when it has variables.
    pub fn validate_function_range_clause(
        &self,
        key: Option<&ExprSyntax>,
        value: Option<&ExprSyntax>,
        token: Option<Token>,
        yielded: usize,
        source: SourceRef,
    ) -> (r: Result<(), Diagnostic>)
        ensures
            range_variable_count(key is Some, value is Some) > yielded ==> fails_with(
                r,
                DiagnosticKind::Semantic,
                too_many_range_variables(range_variable_count(key is Some, value is Some), yielded as int),
                source,
            ),
            range_variable_count(key is Some, value is Some) <= yielded && (range_variable_count(
                key is Some,
                value is Some,
            ) == 0) == (token is Some) ==> fails_with(
                r,
                DiagnosticKind::Semantic,
                "invalid range-over-function assignment clause"@,
                source,
            ),
            r is Ok <==> range_variable_count(key is Some, value is Some) <= yielded && (range_variable_count(
                key is Some,
                value is Some,
            ) == 0) != (token is Some),
    {
        let variables: usize = (if key.is_some() {
            1
        } else {
            0
        }) + (if value.is_some() {
            1
        } else {
            0
        });
        if variables > yielded {
            let mut message = String::from_str("range clause declares ");
            let counted = u64_spelling(variables as u64);
            message.append(counted.as_str());
            message.append(" variables but iterator yields ");
            let available = u64_spelling(yielded as u64);
            message.append(available.as_str());
            message.append(" values");
            proof {
                reveal_strlit("range clause declares ");
                reveal_strlit(" variables but iterator yields ");
                reveal_strlit(" values");
                assert(message@ =~= too_many_range_variables(variables as int, yielded as int));
            }
            return Err(Diagnostic { kind: DiagnosticKind::Semantic, message, source: Some(source) });
        }
        if variables == 0 && token.is_some() || variables != 0 && token.is_none() {
            return Err(Diagnostic::semantic("invalid range-over-function assignment clause", source));
        }
        Ok(())
    }
}

/// `return value` of a boolean constant, built on two nodes allocated from
/// `first` on: the constant, then the statement.
pub open spec fn bool_return_stmt(st: Stmt, owner: u64, first: u32, value: bool) -> bool {
    let value_node = NodeId { owner, local: first };
    let node = NodeId { owner, local: (first + 1) as u32 };
    &&& st.node == node.local as u64
    &&& st.source == SourceRef::Node(node)
    &&& st.kind matches StmtKind::Return(values) && values@ == seq![
        Expr {
            node: value_node.local as u64,
            kind: ExprKind::Constant(ConstValue::Bool(value)),
            ty: Ty::Bool,
            category: ValueCategory::Constant,
            effects: Effects::spec_none(),
            source: SourceRef::Node(value_node),
        },
    ]
}

impl FunctionLowerer {
    /// The statement `return true` or `return false` that ends the yield
    /// function of a range over an iterator.
    pub fn bool_return(&mut self, value: bool, syntax_source: SyntaxSource) -> (r: Result<Stmt, Diagnostic>)
        requires
            old(self).wf(),
        ensures
            final(self).wf(),
            final(self).owner == old(self).owner,
            final(self).locals@ == old(self).locals@,
            final(self).scopes@ == old(self).scopes@,
            old(self).next_node + 2 <= u32::MAX ==> (r matches Ok(st) && bool_return_stmt(
                st,
                old(self).owner,
                old(self).next_node,
                value,
            ) && final(self).next_node == old(self).next_node + 2),
            r matches Err(d) ==> d.kind == DiagnosticKind::Backend,
    {
        let value_node = self.alloc_node(syntax_source)?;
        let value = Expr {
            node: value_node.local as u64,
            kind: ExprKind::Constant(ConstValue::Bool(value)),
            ty: Ty::Bool,
            category: ValueCategory::Constant,
            effects: Effects::none(),
            source: SourceRef::Node(value_node),
        };
        let node = self.alloc_node(syntax_source)?;
        let ghost returned = value;
        let mut values: Vec<Expr> = Vec::new();
        values.push(value);
        assert(values@ =~= seq![returned]);
        Ok(Stmt { node: node.local as u64, kind: StmtKind::Return(values), source: SourceRef::Node(node) })
    }
}

} // verus!
