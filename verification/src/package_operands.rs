//! Checking the operands of `len` and `cap` in package-level constant
//! declarations: the type of each operand, its constant value, and whether
//! evaluating it calls a function or receives from a channel.

use vstd::prelude::*;

use crate::bignum::int_spelling;
use crate::constant::ConstValue;
use crate::constants::{
    constant_operator_valid, eval_constant_with_lookups, evaluates, evaluation_of, is_comparison, outcome,
    predeclared_constant_type, spec_predeclared_constant_type, validate_constant_binary_operator, ConstantTable,
    Evaluation, TypeTable,
};
use crate::conversions::spec_is_nilable_type;
use crate::expressions::{
    binary_operator_valid, exact_common_operand_type, is_assignable, lower_binary_op, spec_exact_common_operand_type,
    spec_is_assignable, spec_lower_binary_op, validate_binary_operator,
};
use crate::hir::{Diagnostic, DiagnosticKind, SourceRef};
use crate::length_capacity::{addressable_shape, is_nilable, operand_name};
use crate::literals::u64_spelling;
use crate::syntax::{ExprSyntax, ExprSyntaxKind, Token};
use crate::types::{ChannelDir, Ty, UntypedTy};

verus! {

/// A checked operand: its type, its constant value if it has one, and
/// whether evaluating it calls a function or receives from a channel.
#[derive(Debug)]
pub struct CheckedOperand {
    pub ty: Ty,
    pub constant: Option<ConstValue>,
    pub contains_call_or_receive: bool,
}

/// The outcome of checking an operand: the checked operand, or the kind of
/// the diagnostic that refuses it.
pub enum Checked {
    Operand(Ty, Option<ConstValue>, bool),
    Failure(DiagnosticKind),
}

pub open spec fn checked_of(r: Result<CheckedOperand, Diagnostic>) -> Checked {
    match r {
        Ok(c) => Checked::Operand(c.ty, c.constant, c.contains_call_or_receive),
        Err(d) => Checked::Failure(d.kind),
    }
}

/// A sub-check that an outcome rests on.
pub open spec fn checked_step(c: Checked) -> bool {
    true
}

/// The predeclared names that package declarations redefine.
pub open spec fn is_shadowed(shadowed: Seq<String>, name: Seq<char>) -> bool {
    exists|i: int| 0 <= i < shadowed.len() && (#[trigger] shadowed[i])@ == name
}

pub open spec fn iota_or_zero(iota: Option<u64>) -> u64 {
    match iota {
        Some(n) => n,
        None => 0,
    }
}

/// `out` follows from evaluating `e` as a constant: its value, with the
/// type `ty` when one is given and the evaluated type otherwise.
pub open spec fn evaluated(
    e: ExprSyntax,
    constants: ConstantTable,
    types: TypeTable,
    iota: Option<u64>,
    ty: Option<Ty>,
    call: bool,
    out: Checked,
) -> bool {
    exists|ev: Evaluation|
        #[trigger] outcome(ev) && evaluates(e, constants, types, iota_or_zero(iota), ev) && match ev {
            Evaluation::Value(t, c) => out == Checked::Operand(
                match ty {
                    Some(x) => x,
                    None => t,
                },
                Some(c),
                call,
            ),
            Evaluation::Failure(k) => out == Checked::Failure(k),
        }
}

/// `out` is the check of an identifier: a constant, a package variable,
/// `true`, `false` or `iota` unless redefined, or an error.
pub open spec fn ident_checked(
    name: Seq<char>,
    constants: ConstantTable,
    variables: TypeTable,
    shadowed: Seq<String>,
    iota: Option<u64>,
    out: Checked,
) -> bool {
    match constants.spec_lookup(name) {
        Some((t, c)) => out matches Checked::Operand(t2, Some(c2), call) && t2 == t && c2.same_constant(c) && !call,
        None => match variables.spec_lookup(name) {
            Some(t) => out == Checked::Operand(t, None, false),
            None => if (name == "true"@ || name == "false"@) && !is_shadowed(shadowed, name) {
                out == Checked::Operand(Ty::Untyped(UntypedTy::Bool), Some(ConstValue::Bool(name == "true"@)), false)
            } else if name == "iota"@ && !is_shadowed(shadowed, name) {
                match iota {
                    None => out == Checked::Failure(DiagnosticKind::Semantic),
                    Some(n) => out matches Checked::Operand(t, Some(ConstValue::Int(s)), call) && t == Ty::Untyped(
                        UntypedTy::Int,
                    ) && s@ == int_spelling(n as int) && !call,
                }
            } else {
                out == Checked::Failure(DiagnosticKind::Semantic)
            },
        },
    }
}

/// Whether `&inner` is allowed: a name when it names a package variable,
/// otherwise by its shape.
pub open spec fn package_addressable(inner: ExprSyntax, variables: TypeTable) -> bool {
    match operand_name(inner) {
        Some(n) => variables.spec_lookup(n) is Some,
        None => addressable_shape(inner),
    }
}

/// The type of a unary operation on an operand of type `t`, or `None` when
/// the operator does not apply.
pub open spec fn unary_type(token: Token, t: Ty, inner: ExprSyntax, variables: TypeTable) -> Option<Ty> {
    if token == Token::AND {
        if package_addressable(inner, variables) {
            Some(Ty::Pointer(Box::new(t)))
        } else {
            None
        }
    } else if token == Token::MUL {
        match t.spec_underlying() {
            Ty::Pointer(e) => Some(*e),
            _ => None,
        }
    } else if (token == Token::ADD || token == Token::SUB) && t.spec_default_typed().spec_is_numeric() {
        Some(t)
    } else if token == Token::NOT && t.spec_default_typed().spec_underlying() == Ty::Bool {
        Some(t)
    } else if token == Token::XOR && t.spec_default_typed().spec_is_integer() {
        Some(t)
    } else {
        None
    }
}

/// `out` is the check of a binary operation on two checked operands.
pub open spec fn binary_checked(
    e: ExprSyntax,
    token: Token,
    lt: Ty,
    lc: Option<ConstValue>,
    lcall: bool,
    rt: Ty,
    rc: Option<ConstValue>,
    rcall: bool,
    constants: ConstantTable,
    types: TypeTable,
    iota: Option<u64>,
    out: Checked,
) -> bool {
    match spec_lower_binary_op(token) {
        None => out == Checked::Failure(DiagnosticKind::Unsupported),
        Some(op) => match spec_exact_common_operand_type(lt, rt) {
            None => out == Checked::Failure(DiagnosticKind::Semantic),
            Some(ot) => if lc is Some && rc is Some {
                if !constant_operator_valid(op, ot) {
                    out == Checked::Failure(DiagnosticKind::Semantic)
                } else {
                    evaluated(e, constants, types, iota, None, lcall || rcall, out)
                }
            } else if !binary_operator_valid(op, ot.spec_default_typed().spec_underlying()) {
                out == Checked::Failure(DiagnosticKind::Semantic)
            } else {
                out == Checked::Operand(
                    if is_comparison(op) {
                        Ty::Bool
                    } else {
                        ot.spec_default_typed()
                    },
                    None,
                    lcall || rcall,
                )
            },
        },
    }
}

/// A callee that is a type: a type name, a predeclared type name, `any`,
/// `error`, or a type literal.
pub open spec fn package_type_expression(e: ExprSyntax, types: TypeTable, shadowed: Seq<String>) -> bool
    decreases e,
{
    match e.kind {
        ExprSyntaxKind::Paren(inner) => package_type_expression(*inner, types, shadowed),
        ExprSyntaxKind::Ident(identifier) => types.spec_lookup(identifier.name@) is Some || (!is_shadowed(
            shadowed,
            identifier.name@,
        ) && (spec_predeclared_constant_type(identifier.name@) is Some || identifier.name@ == "any"@
            || identifier.name@ == "error"@)),
        ExprSyntaxKind::ArrayType { .. } | ExprSyntaxKind::MapType { .. } | ExprSyntaxKind::ChannelType { .. }
        | ExprSyntaxKind::StructType { .. } | ExprSyntaxKind::InterfaceType { .. }
        | ExprSyntaxKind::FunctionType { .. } => true,
        ExprSyntaxKind::Unary { token, .. } => token == Token::MUL,
        _ => false,
    }
}

/// The type that a type-name callee denotes: a package type, else a
/// predeclared type that the package does not redefine.
pub open spec fn named_type(e: ExprSyntax, types: TypeTable, shadowed: Seq<String>) -> Option<Ty>
    decreases e,
{
    match e.kind {
        ExprSyntaxKind::Paren(inner) => named_type(*inner, types, shadowed),
        ExprSyntaxKind::Ident(identifier) => match types.spec_lookup(identifier.name@) {
            Some(t) => Some(t),
            None => if is_shadowed(shadowed, identifier.name@) {
                None
            } else {
                spec_predeclared_constant_type(identifier.name@)
            },
        },
        _ => None,
    }
}

/// The predeclared `nil`, unless the package redefines it.
pub open spec fn is_nil(e: ExprSyntax, shadowed: Seq<String>) -> bool {
    e.kind matches ExprSyntaxKind::Ident(identifier) && identifier.name@ == "nil"@ && !is_shadowed(shadowed, "nil"@)
}

/// The builtins whose calls may stand in a package `len`/`cap` operand.
pub open spec fn operand_builtin(name: Seq<char>) -> bool {
    name == "len"@ || name == "cap"@ || name == "min"@ || name == "max"@ || name == "complex"@ || name == "real"@
        || name == "imag"@
}

/// A callee that names one of those builtins, not redefined by the package.
pub open spec fn builtin_callee(
    callee: ExprSyntax,
    constants: ConstantTable,
    variables: TypeTable,
    types: TypeTable,
    shadowed: Seq<String>,
) -> bool {
    callee.kind matches ExprSyntaxKind::Ident(identifier) && operand_builtin(identifier.name@)
        && constants.spec_lookup(identifier.name@) is None && variables.spec_lookup(identifier.name@) is None
        && types.spec_lookup(identifier.name@) is None && !is_shadowed(shadowed, identifier.name@)
}

pub open spec fn callee_name(callee: ExprSyntax) -> Seq<char> {
    match callee.kind {
        ExprSyntaxKind::Ident(identifier) => identifier.name@,
        _ => Seq::empty(),
    }
}

/// `out` is the check of an operand of package constant `len`/`cap`.
pub open spec fn package_checked(
    e: ExprSyntax,
    constants: ConstantTable,
    variables: TypeTable,
    types: TypeTable,
    shadowed: Seq<String>,
    iota: Option<u64>,
    out: Checked,
) -> bool
    decreases e, 3int, 0int,
{
    match e.kind {
        ExprSyntaxKind::Literal { .. } => evaluated(e, constants, types, iota, None, false, out),
        ExprSyntaxKind::Ident(identifier) => ident_checked(identifier.name@, constants, variables, shadowed, iota, out),
        ExprSyntaxKind::Paren(inner) => package_checked(*inner, constants, variables, types, shadowed, iota, out),
        ExprSyntaxKind::Unary { token, expression } => exists|a: Checked|
            #[trigger] checked_step(a) && package_checked(*expression, constants, variables, types, shadowed, iota, a)
                && match a {
                Checked::Failure(k) => out == Checked::Failure(k),
                Checked::Operand(t, c, call) => if token == Token::ARROW {
                    match t.spec_underlying() {
                        Ty::Channel(direction, element) => if direction != ChannelDir::Send {
                            out == Checked::Operand(*element, None, true)
                        } else {
                            out == Checked::Failure(DiagnosticKind::Semantic)
                        },
                        _ => out == Checked::Failure(DiagnosticKind::Semantic),
                    }
                } else {
                    match unary_type(token, t, *expression, variables) {
                        None => out == Checked::Failure(DiagnosticKind::Semantic),
                        Some(ty) => if c is Some && token != Token::AND && token != Token::MUL {
                            exists|ev: Evaluation|
                                #[trigger] outcome(ev) && evaluates(e, constants, types, iota_or_zero(iota), ev)
                                    && match ev {
                                    Evaluation::Value(_, v) => out == Checked::Operand(ty, Some(v), call),
                                    Evaluation::Failure(k) => out == Checked::Failure(k),
                                }
                        } else {
                            out == Checked::Operand(ty, None, call)
                        },
                    }
                },
            },
        ExprSyntaxKind::Binary { left, token, right } => exists|a: Checked|
            #[trigger] checked_step(a) && package_checked(*left, constants, variables, types, shadowed, iota, a)
                && match a {
                Checked::Failure(k) => out == Checked::Failure(k),
                Checked::Operand(lt, lc, lcall) => exists|b: Checked|
                    #[trigger] checked_step(b) && package_checked(
                        *right,
                        constants,
                        variables,
                        types,
                        shadowed,
                        iota,
                        b,
                    ) && match b {
                        Checked::Failure(k) => out == Checked::Failure(k),
                        Checked::Operand(rt, rc, rcall) => binary_checked(
                            e,
                            token,
                            lt,
                            lc,
                            lcall,
                            rt,
                            rc,
                            rcall,
                            constants,
                            types,
                            iota,
                            out,
                        ),
                    },
            },
        ExprSyntaxKind::Call { callee, arguments, spread } => call_checked(
            e,
            *callee,
            arguments@,
            spread,
            constants,
            variables,
            types,
            shadowed,
            iota,
            out,
        ),
        _ => out == Checked::Failure(DiagnosticKind::Unsupported),
    }
}

/// `out` is the check of a call in an operand: a conversion to a named
/// type, or a builtin whose arguments are checked first.
pub open spec fn call_checked(
    whole: ExprSyntax,
    callee: ExprSyntax,
    args: Seq<ExprSyntax>,
    spread: bool,
    constants: ConstantTable,
    variables: TypeTable,
    types: TypeTable,
    shadowed: Seq<String>,
    iota: Option<u64>,
    out: Checked,
) -> bool
    decreases args, 2int, 0int,
{
    if package_type_expression(callee, types, shadowed) {
        if spread || args.len() != 1 {
            out == Checked::Failure(DiagnosticKind::Semantic)
        } else {
            match named_type(callee, types, shadowed) {
                None => out == Checked::Failure(DiagnosticKind::Unsupported),
                Some(target) => if is_nil(args[0], shadowed) {
                    if spec_is_nilable_type(target) {
                        out == Checked::Operand(target, None, false)
                    } else {
                        out == Checked::Failure(DiagnosticKind::Semantic)
                    }
                } else {
                    exists|a: Checked|
                        #[trigger] checked_step(a) && package_checked(
                            args[0],
                            constants,
                            variables,
                            types,
                            shadowed,
                            iota,
                            a,
                        ) && match a {
                            Checked::Failure(k) => out == Checked::Failure(k),
                            Checked::Operand(at, ac, acall) => if !spec_is_assignable(at, target)
                                && at.spec_underlying() != target.spec_underlying() && !(at.spec_is_numeric()
                                && target.spec_is_numeric()) {
                                out == Checked::Failure(DiagnosticKind::Semantic)
                            } else {
                                out == Checked::Operand(target, ac, acall)
                            },
                        }
                },
            }
        }
    } else if builtin_callee(callee, constants, variables, types, shadowed) {
        exists|a: Checked|
            #[trigger] checked_step(a) && arguments_checked(args, 0, constants, variables, types, shadowed, iota, a)
                && match a {
                Checked::Failure(k) => out == Checked::Failure(k),
                Checked::Operand(_, _, _) => if callee_name(callee) == "len"@ || callee_name(callee) == "cap"@ {
                    out == Checked::Failure(DiagnosticKind::Unsupported)
                } else {
                    evaluated(whole, constants, types, iota, None, false, out)
                },
            }
    } else {
        out == Checked::Failure(DiagnosticKind::Semantic)
    }
}

/// `out` is the first refusal among the arguments from index `i` on, or a
/// success marker when every one checks.
pub open spec fn arguments_checked(
    args: Seq<ExprSyntax>,
    i: int,
    constants: ConstantTable,
    variables: TypeTable,
    types: TypeTable,
    shadowed: Seq<String>,
    iota: Option<u64>,
    out: Checked,
) -> bool
    decreases args, 1int, args.len() - i,
{
    if i < 0 || i >= args.len() {
        out == Checked::Operand(Ty::Unit, None, false)
    } else {
        exists|a: Checked|
            #[trigger] checked_step(a) && package_checked(args[i], constants, variables, types, shadowed, iota, a)
                && match a {
                Checked::Failure(k) => out == Checked::Failure(k),
                Checked::Operand(_, _, _) => arguments_checked(
                    args,
                    i + 1,
                    constants,
                    variables,
                    types,
                    shadowed,
                    iota,
                    out,
                ),
            }
    }
}

/// Whether the package redefines a predeclared name.
fn shadows(shadowed: &Vec<String>, name: &str) -> (r: bool)
    ensures
        r == is_shadowed(shadowed@, name@),
{
    let mut i: usize = 0;
    while i < shadowed.len()
        invariant
            i <= shadowed@.len(),
            forall|j: int| 0 <= j < i ==> (#[trigger] shadowed@[j])@ != name@,
        decreases shadowed@.len() - i,
    {
        if shadowed[i] == String::from_str(name) {
            proof {
                assert(shadowed@[i as int]@ == name@);
            }
            return true;
        }
        i += 1;
    }
    false
}

/// Whether a name is one of the given words.
fn spells(name: &str, word: &str) -> (r: bool)
    ensures
        r == (name@ == word@),
{
    String::from_str(name) == String::from_str(word)
}

/// A semantic error at the operand.
fn refused(message: &str, source: SourceRef) -> (r: Result<CheckedOperand, Diagnostic>)
    ensures
        r matches Err(d) && d.kind == DiagnosticKind::Semantic && d.message@ == message@ && d.source == Some(source),
{
    Err(Diagnostic::semantic(message, source))
}

/// Evaluates `e` as a constant, keeping the checked type when one is given.
fn evaluate_operand(
    e: &ExprSyntax,
    constants: &ConstantTable,
    types: &TypeTable,
    iota: Option<u64>,
    ty: Option<Ty>,
    contains_call_or_receive: bool,
    source: SourceRef,
) -> (r: Result<CheckedOperand, Diagnostic>)
    requires
        constants.wf(),
        types.wf(),
    ensures
        r matches Ok(c) ==> c.contains_call_or_receive == contains_call_or_receive,
        exists|ev: Evaluation|
            #[trigger] outcome(ev) && evaluates(*e, *constants, *types, iota_or_zero(iota), ev) && match ev {
                Evaluation::Value(t, c) => r matches Ok(o) && o.ty == (match ty {
                    Some(x) => x,
                    None => t,
                }) && o.constant == Some(c),
                Evaluation::Failure(k) => r matches Err(d) && d.kind == k,
            },
{
    let n = match iota {
        Some(n) => n,
        None => 0,
    };
    let evaluated = eval_constant_with_lookups(e, constants, types, source, n);
    proof {
        assert(outcome(evaluation_of(evaluated)));
    }
    match evaluated {
        Ok((t, c)) => Ok(
            CheckedOperand {
                ty: match ty {
                    Some(x) => x,
                    None => t,
                },
                constant: Some(c),
                contains_call_or_receive,
            },
        ),
        Err(d) => Err(d),
    }
}

/// Checks an identifier operand.
fn check_package_ident(
    name: &String,
    constants: &ConstantTable,
    variables: &TypeTable,
    shadowed_predeclared: &Vec<String>,
    source: SourceRef,
    iota: Option<u64>,
) -> (r: Result<CheckedOperand, Diagnostic>)
    requires
        constants.wf(),
        variables.wf(),
    ensures
        ident_checked(name@, *constants, *variables, shadowed_predeclared@, iota, checked_of(r)),
{
    if let Some((ty, value)) = constants.lookup(name) {
        return Ok(CheckedOperand { ty, constant: Some(value), contains_call_or_receive: false });
    }
    if let Some(ty) = variables.lookup(name) {
        return Ok(CheckedOperand { ty, constant: None, contains_call_or_receive: false });
    }
    let n = name.as_str();
    if (spells(n, "true") || spells(n, "false")) && !shadows(shadowed_predeclared, n) {
        return Ok(
            CheckedOperand {
                ty: Ty::Untyped(UntypedTy::Bool),
                constant: Some(ConstValue::Bool(spells(n, "true"))),
                contains_call_or_receive: false,
            },
        );
    }
    if spells(n, "iota") && !shadows(shadowed_predeclared, n) {
        let value = match iota {
            Some(v) => v,
            None => {
                return refused("iota is only defined in constant declarations", source);
            },
        };
        return Ok(
            CheckedOperand {
                ty: Ty::Untyped(UntypedTy::Int),
                constant: Some(ConstValue::Int(u64_spelling(value))),
                contains_call_or_receive: false,
            },
        );
    }
    let mut message = name.clone();
    message.append(" is not a constant");
    Err(Diagnostic { kind: DiagnosticKind::Semantic, message, source: Some(source) })
}

/// Checks an operand of a package-level constant `len` or `cap`: its type,
/// its constant value, and whether it calls or receives.  Conversions are
/// checked for named target types; the operands of builtin calls are
/// checked before the call is evaluated.
#[verifier::spinoff_prover]
#[verifier::rlimit(100)]
pub fn check_package_operand(
    expression: &ExprSyntax,
    constants: &ConstantTable,
    variables: &TypeTable,
    types: &TypeTable,
    shadowed_predeclared: &Vec<String>,
    source: SourceRef,
    iota: Option<u64>,
) -> (r: Result<CheckedOperand, Diagnostic>)
    requires
        constants.wf(),
        variables.wf(),
        types.wf(),
    ensures
        package_checked(
            *expression,
            *constants,
            *variables,
            *types,
            shadowed_predeclared@,
            iota,
            checked_of(r),
        ),
    decreases *expression, 3int, 0int,
{
    match &expression.kind {
        ExprSyntaxKind::Literal { .. } => {
            let r = evaluate_operand(expression, constants, types, iota, None, false, source);
            r
        },
        ExprSyntaxKind::Ident(identifier) => check_package_ident(
            &identifier.name,
            constants,
            variables,
            shadowed_predeclared,
            source,
            iota,
        ),
        ExprSyntaxKind::Paren(inner) => check_package_operand(
            inner,
            constants,
            variables,
            types,
            shadowed_predeclared,
            source,
            iota,
        ),
        ExprSyntaxKind::Unary { token, expression: inner } => check_package_unary(
            expression,
            constants,
            variables,
            types,
            shadowed_predeclared,
            source,
            iota,
        ),
        ExprSyntaxKind::Binary { left, token, right } => check_package_binary(
            expression,
            constants,
            variables,
            types,
            shadowed_predeclared,
            source,
            iota,
        ),
        ExprSyntaxKind::Call { callee, arguments, spread } => check_package_call(
            expression,
            callee,
            arguments,
            *spread,
            constants,
            variables,
            types,
            shadowed_predeclared,
            source,
            iota,
        ),
        _ => Err(
            Diagnostic::unsupported("this package len/cap operand has no check-only semantic representation", source),
        ),
    }
}

/// Checks a unary operand: a receive, an address, an indirection or an
/// arithmetic or logical operator.
fn check_package_unary(
    expression: &ExprSyntax,
    constants: &ConstantTable,
    variables: &TypeTable,
    types: &TypeTable,
    shadowed_predeclared: &Vec<String>,
    source: SourceRef,
    iota: Option<u64>,
) -> (r: Result<CheckedOperand, Diagnostic>)
    requires
        constants.wf(),
        variables.wf(),
        types.wf(),
        expression.kind is Unary,
    ensures
        package_checked(
            *expression,
            *constants,
            *variables,
            *types,
            shadowed_predeclared@,
            iota,
            checked_of(r),
        ),
    decreases *expression, 2int, 0int,
{
    match &expression.kind {
        ExprSyntaxKind::Unary { token, expression: inner } => {
        let a = check_package_operand(inner, constants, variables, types, shadowed_predeclared, source, iota);
        proof {
            assert(checked_step(checked_of(a)));
        }
        let operand = match a {
            Ok(o) => o,
            Err(d) => return Err(d),
        };
        if *token == Token::ARROW {
            return match operand.ty.underlying() {
                Ty::Channel(direction, element) => {
                    if direction.can_receive() {
                        Ok(
                            CheckedOperand {
                                ty: (**element).clone(),
                                constant: None,
                                contains_call_or_receive: true,
                            },
                        )
                    } else {
                        refused("cannot receive from a send-only channel", source)
                    }
                },
                _ => refused("receive requires a channel operand", source),
            };
        }
        let ty = if *token == Token::AND {
            let addressable = addressable_in(inner, variables);
            if !addressable {
                return refused("cannot take the address of this expression", source);
            }
            Ty::Pointer(Box::new(operand.ty.clone()))
        } else if *token == Token::MUL {
            match operand.ty.underlying() {
                Ty::Pointer(element) => (**element).clone(),
                _ => {
                    return refused("indirection requires a pointer operand", source);
                },
            }
        } else if (*token == Token::ADD || *token == Token::SUB) && operand.ty.default_typed().is_numeric() {
            operand.ty.clone()
        } else if *token == Token::NOT && *operand.ty.default_typed().underlying() == Ty::Bool {
            operand.ty.clone()
        } else if *token == Token::XOR && operand.ty.default_typed().is_integer() {
            operand.ty.clone()
        } else {
            return refused("invalid unary operand", source);
        };
        if operand.constant.is_some() && *token != Token::AND && *token != Token::MUL {
            evaluate_operand(expression, constants, types, iota, Some(ty), operand.contains_call_or_receive, source)
        } else {
            Ok(CheckedOperand { ty, constant: None, contains_call_or_receive: operand.contains_call_or_receive })
        }
        },
        _ => Err(Diagnostic::backend("operand changed its form")),
    }
}

/// Checks a binary operand: both sides, then the operator on their common
/// type.
#[verifier::spinoff_prover]
#[verifier::rlimit(100)]
fn check_package_binary(
    expression: &ExprSyntax,
    constants: &ConstantTable,
    variables: &TypeTable,
    types: &TypeTable,
    shadowed_predeclared: &Vec<String>,
    source: SourceRef,
    iota: Option<u64>,
) -> (r: Result<CheckedOperand, Diagnostic>)
    requires
        constants.wf(),
        variables.wf(),
        types.wf(),
        expression.kind is Binary,
    ensures
        package_checked(
            *expression,
            *constants,
            *variables,
            *types,
            shadowed_predeclared@,
            iota,
            checked_of(r),
        ),
    decreases *expression, 2int, 0int,
{
    match &expression.kind {
        ExprSyntaxKind::Binary { left, token, right } => {
        let a = check_package_operand(left, constants, variables, types, shadowed_predeclared, source, iota);
        proof {
            assert(checked_step(checked_of(a)));
        }
        let left_operand = match a {
            Ok(o) => o,
            Err(d) => return Err(d),
        };
        let b = check_package_operand(right, constants, variables, types, shadowed_predeclared, source, iota);
        proof {
            assert(checked_step(checked_of(b)));
        }
        let right_operand = match b {
            Ok(o) => o,
            Err(d) => return Err(d),
        };
        let op = match lower_binary_op(*token) {
            Some(op) => op,
            None => {
                return Err(Diagnostic::unsupported("binary operator is not implemented", source));
            },
        };
        let both_constant = left_operand.constant.is_some() && right_operand.constant.is_some();
        let operand_ty = match exact_common_operand_type(&left_operand.ty, &right_operand.ty) {
            Some(t) => t,
            None => {
                return refused("incompatible operands", source);
            },
        };
        let calls = left_operand.contains_call_or_receive || right_operand.contains_call_or_receive;
        if both_constant {
            match validate_constant_binary_operator(op, &operand_ty, source) {
                Ok(()) => {},
                Err(d) => return Err(d),
            }
            evaluate_operand(expression, constants, types, iota, None, calls, source)
        } else {
            match validate_binary_operator(op, &operand_ty.default_typed(), source) {
                Ok(()) => {},
                Err(d) => return Err(d),
            }
            let comparison_or_logical = match op {
                crate::hir::BinaryOp::Equal
                | crate::hir::BinaryOp::NotEqual
                | crate::hir::BinaryOp::Less
                | crate::hir::BinaryOp::LessEqual
                | crate::hir::BinaryOp::Greater
                | crate::hir::BinaryOp::GreaterEqual
                | crate::hir::BinaryOp::LogicalAnd
                | crate::hir::BinaryOp::LogicalOr => true,
                _ => false,
            };
            let ty = if comparison_or_logical {
                Ty::Bool
            } else {
                operand_ty.default_typed()
            };
            Ok(CheckedOperand { ty, constant: None, contains_call_or_receive: calls })
        }
        },
        _ => Err(Diagnostic::backend("operand changed its form")),
    }
}

/// Whether `&e` is allowed in a package operand: a name when it names a
/// package variable, otherwise by its shape.
fn addressable_in(e: &ExprSyntax, variables: &TypeTable) -> (r: bool)
    requires
        variables.wf(),
    ensures
        r == package_addressable(*e, *variables),
    decreases e,
{
    match &e.kind {
        ExprSyntaxKind::Paren(inner) => addressable_in(inner, variables),
        ExprSyntaxKind::Ident(identifier) => variables.lookup(&identifier.name).is_some(),
        ExprSyntaxKind::Unary { token, .. } => *token == Token::MUL,
        ExprSyntaxKind::CompositeLiteral { .. } | ExprSyntaxKind::Index { .. } | ExprSyntaxKind::Selector {
            ..
        } => true,
        _ => false,
    }
}

/// Whether a callee is a type.
fn is_package_type_expression(e: &ExprSyntax, types: &TypeTable, shadowed: &Vec<String>) -> (r: bool)
    requires
        types.wf(),
    ensures
        r == package_type_expression(*e, *types, shadowed@),
    decreases e,
{
    match &e.kind {
        ExprSyntaxKind::Paren(inner) => is_package_type_expression(inner, types, shadowed),
        ExprSyntaxKind::Ident(identifier) => {
            let n = identifier.name.as_str();
            types.lookup(&identifier.name).is_some() || (!shadows(shadowed, n) && (predeclared_constant_type(
                &identifier.name,
            ).is_some() || spells(n, "any") || spells(n, "error")))
        },
        ExprSyntaxKind::ArrayType { .. } | ExprSyntaxKind::MapType { .. } | ExprSyntaxKind::ChannelType { .. }
        | ExprSyntaxKind::StructType { .. } | ExprSyntaxKind::InterfaceType { .. }
        | ExprSyntaxKind::FunctionType { .. } => true,
        ExprSyntaxKind::Unary { token, .. } => *token == Token::MUL,
        _ => false,
    }
}

/// The type a type-name callee denotes.
fn named_callee_type(e: &ExprSyntax, types: &TypeTable, shadowed: &Vec<String>) -> (r: Option<Ty>)
    requires
        types.wf(),
    ensures
        r == named_type(*e, *types, shadowed@),
    decreases e,
{
    match &e.kind {
        ExprSyntaxKind::Paren(inner) => named_callee_type(inner, types, shadowed),
        ExprSyntaxKind::Ident(identifier) => match types.lookup(&identifier.name) {
            Some(t) => Some(t),
            None => if shadows(shadowed, identifier.name.as_str()) {
                None
            } else {
                predeclared_constant_type(&identifier.name)
            },
        },
        _ => None,
    }
}

/// Checks a call in an operand: a conversion to a named type, or a builtin
/// call whose arguments are checked before the call is evaluated.
pub fn check_package_call(
    whole: &ExprSyntax,
    callee: &ExprSyntax,
    arguments: &Vec<ExprSyntax>,
    spread: bool,
    constants: &ConstantTable,
    variables: &TypeTable,
    types: &TypeTable,
    shadowed_predeclared: &Vec<String>,
    source: SourceRef,
    iota: Option<u64>,
) -> (r: Result<CheckedOperand, Diagnostic>)
    requires
        constants.wf(),
        variables.wf(),
        types.wf(),
    ensures
        call_checked(
            *whole,
            *callee,
            arguments@,
            spread,
            *constants,
            *variables,
            *types,
            shadowed_predeclared@,
            iota,
            checked_of(r),
        ),
    decreases arguments@, 2int, 0int,
{
    if is_package_type_expression(callee, types, shadowed_predeclared) {
        if spread || arguments.len() != 1 {
            return refused("a conversion requires exactly one argument", source);
        }
        let target = match named_callee_type(callee, types, shadowed_predeclared) {
            Some(t) => t,
            None => {
                return Err(
                    Diagnostic::unsupported("conversion to this type is not checked in package len/cap operands", source),
                );
            },
        };
        let argument = &arguments[0];
        let nil = match &argument.kind {
            ExprSyntaxKind::Ident(identifier) => spells(identifier.name.as_str(), "nil") && !shadows(
                shadowed_predeclared,
                "nil",
            ),
            _ => false,
        };
        if nil {
            if !is_nilable(&target) {
                return refused("cannot convert nil to this type", source);
            }
            return Ok(CheckedOperand { ty: target, constant: None, contains_call_or_receive: false });
        }
        let a = check_package_operand(argument, constants, variables, types, shadowed_predeclared, source, iota);
        proof {
            assert(checked_step(checked_of(a)));
        }
        let checked = match a {
            Ok(o) => o,
            Err(d) => return Err(d),
        };
        if !is_assignable(&checked.ty, &target) && !crate::types::ty_equal(
            checked.ty.underlying(),
            target.underlying(),
        ) && !(checked.ty.is_numeric() && target.is_numeric()) {
            return refused("cannot convert the operand to this type", source);
        }
        return Ok(
            CheckedOperand {
                ty: target,
                constant: checked.constant,
                contains_call_or_receive: checked.contains_call_or_receive,
            },
        );
    }
    let builtin = match &callee.kind {
        ExprSyntaxKind::Ident(identifier) => {
            let n = identifier.name.as_str();
            (spells(n, "len") || spells(n, "cap") || spells(n, "min") || spells(n, "max") || spells(n, "complex")
                || spells(n, "real") || spells(n, "imag")) && constants.lookup(&identifier.name).is_none()
                && variables.lookup(&identifier.name).is_none() && types.lookup(&identifier.name).is_none()
                && !shadows(shadowed_predeclared, n)
        },
        _ => false,
    };
    if builtin {
        let a = check_package_arguments(arguments, 0, constants, variables, types, shadowed_predeclared, source, iota);
        proof {
            assert(checked_step(checked_of(a)));
        }
        match a {
            Ok(_) => {},
            Err(d) => return Err(d),
        }
        let length_builtin = match &callee.kind {
            ExprSyntaxKind::Ident(identifier) => spells(identifier.name.as_str(), "len") || spells(
                identifier.name.as_str(),
                "cap",
            ),
            _ => false,
        };
        if length_builtin {
            return Err(
                Diagnostic::unsupported("nested len/cap is not checked in package len/cap operands", source),
            );
        }
        return evaluate_operand(whole, constants, types, iota, None, false, source);
    }
    refused("function call makes len/cap non-constant", source)
}

/// Checks the arguments from index `i` on, in order, stopping at the first
/// refusal.
fn check_package_arguments(
    arguments: &Vec<ExprSyntax>,
    i: usize,
    constants: &ConstantTable,
    variables: &TypeTable,
    types: &TypeTable,
    shadowed_predeclared: &Vec<String>,
    source: SourceRef,
    iota: Option<u64>,
) -> (r: Result<CheckedOperand, Diagnostic>)
    requires
        constants.wf(),
        variables.wf(),
        types.wf(),
        i <= arguments@.len(),
    ensures
        arguments_checked(
            arguments@,
            i as int,
            *constants,
            *variables,
            *types,
            shadowed_predeclared@,
            iota,
            checked_of(r),
        ),
    decreases arguments@, 1int, arguments@.len() - i,
{
    if i >= arguments.len() {
        return Ok(CheckedOperand { ty: Ty::Unit, constant: None, contains_call_or_receive: false });
    }
    let a = check_package_operand(&arguments[i], constants, variables, types, shadowed_predeclared, source, iota);
    proof {
        assert(checked_step(checked_of(a)));
    }
    match a {
        Ok(_) => {},
        Err(d) => return Err(d),
    }
    check_package_arguments(arguments, i + 1, constants, variables, types, shadowed_predeclared, source, iota)
}

} // verus!
