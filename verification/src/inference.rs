//! Inference of a generic function's type arguments from one argument: the
//! formal parameter's type expression is matched against the argument's
//! type, binding the type parameters it mentions.

use vstd::prelude::*;

use crate::constants::{predeclared_constant_type, spec_predeclared_constant_type, TypeTable};
use crate::function::{entry, find_key, insert_entry, unique_keys};
use crate::generics::{prefer_defined_type, spec_prefer_defined_type, type_inference_mismatch};
use crate::hir::{Diagnostic, DiagnosticKind, SourceRef};
use crate::syntax::{ExprSyntax, ExprSyntaxKind, Token};
use crate::types::{ty_equal, ChannelDir, Ty};

verus! {

/// A generic type declaration: its name, its identity, and the type
/// expression it stands for.
pub struct GenericTypeSymbol {
    pub name: String,
    pub id: u64,
    pub underlying: ExprSyntax,
}

/// The first generic type of the given name.
pub open spec fn generic_lookup(table: Seq<GenericTypeSymbol>, name: Seq<char>) -> Option<GenericTypeSymbol>
    decreases table.len(),
{
    if table.len() == 0 {
        None
    } else if table[0].name@ == name {
        Some(table[0])
    } else {
        generic_lookup(table.drop_first(), name)
    }
}

/// The nesting depth of a type; the element of a composite type, and the
/// underlying type of a defined one, is shallower.
pub open spec fn ty_depth(t: Ty) -> nat
    decreases t,
{
    match t {
        Ty::Named { underlying, .. } => 1 + ty_depth(*underlying),
        Ty::LocalNamed { underlying, .. } => 1 + ty_depth(*underlying),
        Ty::Pointer(e) => 1 + ty_depth(*e),
        Ty::Slice(e) => 1 + ty_depth(*e),
        Ty::Array(_, e) => 1 + ty_depth(*e),
        Ty::Channel(_, e) => 1 + ty_depth(*e),
        Ty::MapTy(k, v) => 1 + if ty_depth(*k) > ty_depth(*v) {
            ty_depth(*k)
        } else {
            ty_depth(*v)
        },
        Ty::Tuple(a, b) => 1 + if ty_depth(*a) > ty_depth(*b) {
            ty_depth(*a)
        } else {
            ty_depth(*b)
        },
        _ => 0,
    }
}

/// A type's underlying type is no deeper than the type.
pub proof fn lemma_underlying_depth(t: Ty)
    ensures
        ty_depth(t.spec_underlying()) <= ty_depth(t),
    decreases t,
{
    match t {
        Ty::Named { underlying, .. } => lemma_underlying_depth(*underlying),
        Ty::LocalNamed { underlying, .. } => lemma_underlying_depth(*underlying),
        _ => {},
    }
}

/// The name is one of the function's type parameters.
pub open spec fn is_parameter(names: Seq<String>, name: Seq<char>) -> bool {
    exists|i: int| 0 <= i < names.len() && (#[trigger] names[i])@ == name
}

/// `after` is `before` with the entry of `name` set to `value`.
pub open spec fn binds(before: Seq<(String, Ty)>, after: Seq<(String, Ty)>, name: Seq<char>, value: Ty) -> bool {
    forall|n: Seq<char>| #[trigger] entry(after, n) == if n == name {
        Some(value)
    } else {
        entry(before, n)
    }
}

/// The outcome of binding the parameter `name` to the argument type
/// `actual`, with untyped constants taking their default type: a parameter
/// already bound to another type keeps the defined one of the two when they
/// share an underlying type, and conflicts otherwise.
pub open spec fn parameter_binding(
    name: Seq<char>,
    actual: Ty,
    before: Seq<(String, Ty)>,
    after: Seq<(String, Ty)>,
    out: Option<DiagnosticKind>,
) -> bool {
    let a = actual.spec_default_typed();
    match entry(before, name) {
        Some(previous) => if previous != a {
            match spec_prefer_defined_type(previous, a) {
                None => out == Some(DiagnosticKind::Semantic) && after == before,
                Some(p) => out is None && binds(before, after, name, p),
            }
        } else {
            out is None && binds(before, after, name, a)
        },
        None => out is None && binds(before, after, name, a),
    }
}

/// The type a plain type name denotes during inference: a parameter
/// inferred so far, a type alias, or a predeclared type.
pub open spec fn inferred_name_type(name: Seq<char>, before: Seq<(String, Ty)>, aliases: TypeTable) -> Option<Ty> {
    match entry(before, name) {
        Some(t) => Some(t),
        None => match aliases.spec_lookup(name) {
            Some(t) => Some(t),
            None => spec_predeclared_constant_type(name),
        },
    }
}

/// `out` is the outcome of inferring from `formal` against `actual`, and
/// `after` the substitutions it leaves: a refusal leaves them unchanged.
pub open spec fn infers(
    formal: ExprSyntax,
    actual: Ty,
    names: Seq<String>,
    aliases: TypeTable,
    generics: Seq<GenericTypeSymbol>,
    before: Seq<(String, Ty)>,
    after: Seq<(String, Ty)>,
    out: Option<DiagnosticKind>,
) -> bool
    decreases ty_depth(actual), formal, 1int,
{
    let mismatch = out == Some(DiagnosticKind::Semantic) && after == before;
    match formal.kind {
        ExprSyntaxKind::Paren(inner) => infers(*inner, actual, names, aliases, generics, before, after, out),
        ExprSyntaxKind::Ident(identifier) => if is_parameter(names, identifier.name@) {
            parameter_binding(identifier.name@, actual, before, after, out)
        } else {
            match inferred_name_type(identifier.name@, before, aliases) {
                Some(t) => if t == actual {
                    out is None && after == before
                } else {
                    mismatch
                },
                None => mismatch,
            }
        },
        ExprSyntaxKind::ArrayType { length, element } => match length {
            Some(_) => out == Some(DiagnosticKind::Unsupported) && after == before,
            None => match actual.spec_underlying() {
                Ty::Slice(e) => {
                    proof {
                        lemma_underlying_depth(actual);
                    }
                    infers(*element, *e, names, aliases, generics, before, after, out)
                },
                _ => mismatch,
            },
        },
        ExprSyntaxKind::Unary { token, expression } => if token == Token::MUL {
            match actual.spec_underlying() {
                Ty::Pointer(e) => {
                    proof {
                        lemma_underlying_depth(actual);
                    }
                    infers(*expression, *e, names, aliases, generics, before, after, out)
                },
                _ => mismatch,
            }
        } else {
            out == Some(DiagnosticKind::Unsupported) && after == before
        },
        ExprSyntaxKind::ChannelType { direction, element } => match actual.spec_underlying() {
            Ty::Channel(actual_direction, e) => if direction != actual_direction && actual_direction
                != ChannelDir::SendReceive {
                mismatch
            } else {
                proof {
                    lemma_underlying_depth(actual);
                }
                infers(*element, *e, names, aliases, generics, before, after, out)
            },
            _ => mismatch,
        },
        ExprSyntaxKind::Index { base, .. } => generic_infers(*base, actual, names, aliases, generics, before, after, out),
        ExprSyntaxKind::IndexList { base, .. } => generic_infers(
            *base,
            actual,
            names,
            aliases,
            generics,
            before,
            after,
            out,
        ),
        _ => out == Some(DiagnosticKind::Unsupported) && after == before,
    }
}

/// Inference through an instantiated generic type `G[...]`: the argument
/// must be a type defined by `G`, whose underlying type is matched against
/// `G`'s declared type expression.
pub open spec fn generic_infers(
    base: ExprSyntax,
    actual: Ty,
    names: Seq<String>,
    aliases: TypeTable,
    generics: Seq<GenericTypeSymbol>,
    before: Seq<(String, Ty)>,
    after: Seq<(String, Ty)>,
    out: Option<DiagnosticKind>,
) -> bool
    decreases ty_depth(actual), base, 0int,
{
    let mismatch = out == Some(DiagnosticKind::Semantic) && after == before;
    match base.kind {
        ExprSyntaxKind::Ident(b) => match generic_lookup(generics, b.name@) {
            None => mismatch,
            Some(g) => match actual {
                Ty::Named { definition, underlying } => if definition != g.id {
                    mismatch
                } else {
                    infers(g.underlying, *underlying, names, aliases, generics, before, after, out)
                },
                _ => mismatch,
            },
        },
        _ => mismatch,
    }
}

fn names_contain(names: &Vec<String>, name: &String) -> (r: bool)
    ensures
        r == is_parameter(names@, name@),
{
    let mut i: usize = 0;
    while i < names.len()
        invariant
            i <= names@.len(),
            forall|j: int| 0 <= j < i ==> (#[trigger] names@[j])@ != name@,
        decreases names@.len() - i,
    {
        if names[i] == *name {
            proof {
                assert(names@[i as int]@ == name@);
            }
            return true;
        }
        i += 1;
    }
    false
}

fn find_generic<'a>(generics: &'a Vec<GenericTypeSymbol>, name: &String) -> (r: Option<&'a GenericTypeSymbol>)
    ensures
        match r {
            Some(g) => generic_lookup(generics@, name@) == Some(*g),
            None => generic_lookup(generics@, name@) is None,
        },
{
    let mut i: usize = 0;
    assert(generics@.skip(0) =~= generics@);
    while i < generics.len()
        invariant
            i <= generics@.len(),
            generic_lookup(generics@, name@) == generic_lookup(generics@.skip(i as int), name@),
        decreases generics@.len() - i,
    {
        proof {
            assert(generics@.skip(i as int).drop_first() =~= generics@.skip(i + 1));
        }
        if generics[i].name == *name {
            return Some(&generics[i]);
        }
        i += 1;
    }
    proof {
        assert(generics@.skip(i as int).len() == 0);
    }
    None
}

/// Binds a type parameter to an argument type.
fn bind_parameter(name: &String, actual: &Ty, substitutions: &mut Vec<(String, Ty)>, source: SourceRef) -> (r: Result<
    (),
    Diagnostic,
>)
    requires
        unique_keys(old(substitutions)@),
    ensures
        unique_keys(final(substitutions)@),
        parameter_binding(
            name@,
            *actual,
            old(substitutions)@,
            final(substitutions)@,
            match r {
                Ok(_) => None,
                Err(d) => Some(d.kind),
            },
        ),
{
    let a = actual.default_typed();
    let previous = match find_key(substitutions, name.as_str()) {
        Some(k) => Some(substitutions[k].1.clone()),
        None => None,
    };
    assert(entry(old(substitutions)@, name@) == previous);
    if let Some(p) = previous {
        if !ty_equal(&p, &a) {
            let preferred = match prefer_defined_type(&p, &a) {
                Some(t) => t,
                None => {
                    return Err(Diagnostic::semantic("conflicting inferred types for a type parameter", source));
                },
            };
            insert_entry(substitutions, name.clone(), preferred);
            return Ok(());
        }
    }
    insert_entry(substitutions, name.clone(), a);
    Ok(())
}

/// Infers type arguments from an argument of type `actual` passed for a
/// parameter declared with the type expression `formal`, extending
/// `substitutions` with each type parameter it binds.
pub fn infer_type_expression(
    formal: &ExprSyntax,
    actual: &Ty,
    parameter_names: &Vec<String>,
    substitutions: &mut Vec<(String, Ty)>,
    aliases: &TypeTable,
    generic_types: &Vec<GenericTypeSymbol>,
    source: SourceRef,
) -> (r: Result<(), Diagnostic>)
    requires
        unique_keys(old(substitutions)@),
        aliases.wf(),
    ensures
        unique_keys(final(substitutions)@),
        infers(
            *formal,
            *actual,
            parameter_names@,
            *aliases,
            generic_types@,
            old(substitutions)@,
            final(substitutions)@,
            match r {
                Ok(_) => None,
                Err(d) => Some(d.kind),
            },
        ),
    decreases ty_depth(*actual), *formal, 1int,
{
    match &formal.kind {
        ExprSyntaxKind::Paren(inner) => infer_type_expression(
            inner,
            actual,
            parameter_names,
            substitutions,
            aliases,
            generic_types,
            source,
        ),
        ExprSyntaxKind::Ident(identifier) => {
            if names_contain(parameter_names, &identifier.name) {
                return bind_parameter(&identifier.name, actual, substitutions, source);
            }
            let bound = match find_key(substitutions, identifier.name.as_str()) {
                Some(k) => Some(substitutions[k].1.clone()),
                None => None,
            };
            assert(entry(old(substitutions)@, identifier.name@) == bound);
            let named = match bound {
                Some(t) => Some(t),
                None => match aliases.lookup(&identifier.name) {
                    Some(t) => Some(t),
                    None => predeclared_constant_type(&identifier.name),
                },
            };
            match named {
                Some(t) => if ty_equal(&t, actual) {
                    Ok(())
                } else {
                    Err(type_inference_mismatch(formal, actual, source))
                },
                None => Err(type_inference_mismatch(formal, actual, source)),
            }
        },
        ExprSyntaxKind::ArrayType { length, element } => {
            if length.is_some() {
                return Err(
                    Diagnostic::unsupported("array type patterns are not inferred from", source),
                );
            }
            match actual.underlying() {
                Ty::Slice(e) => {
                    proof {
                        lemma_underlying_depth(*actual);
                    }
                    infer_type_expression(element, e, parameter_names, substitutions, aliases, generic_types, source)
                },
                _ => Err(type_inference_mismatch(formal, actual, source)),
            }
        },
        ExprSyntaxKind::Unary { token, expression } => {
            if *token != Token::MUL {
                return Err(Diagnostic::unsupported("this type pattern is not inferred from", source));
            }
            match actual.underlying() {
                Ty::Pointer(e) => {
                    proof {
                        lemma_underlying_depth(*actual);
                    }
                    infer_type_expression(
                        expression,
                        e,
                        parameter_names,
                        substitutions,
                        aliases,
                        generic_types,
                        source,
                    )
                },
                _ => Err(type_inference_mismatch(formal, actual, source)),
            }
        },
        ExprSyntaxKind::ChannelType { direction, element } => match actual.underlying() {
            Ty::Channel(actual_direction, e) => {
                if *direction != *actual_direction && *actual_direction != ChannelDir::SendReceive {
                    return Err(type_inference_mismatch(formal, actual, source));
                }
                proof {
                    lemma_underlying_depth(*actual);
                }
                infer_type_expression(element, e, parameter_names, substitutions, aliases, generic_types, source)
            },
            _ => Err(type_inference_mismatch(formal, actual, source)),
        },
        ExprSyntaxKind::Index { base, .. } => infer_generic_instance(
            base,
            actual,
            parameter_names,
            substitutions,
            aliases,
            generic_types,
            source,
        ),
        ExprSyntaxKind::IndexList { base, .. } => infer_generic_instance(
            base,
            actual,
            parameter_names,
            substitutions,
            aliases,
            generic_types,
            source,
        ),
        _ => Err(Diagnostic::unsupported("this type pattern is not inferred from", source)),
    }
}

/// Infers through an instantiated generic type named by `base`.
fn infer_generic_instance(
    base: &ExprSyntax,
    actual: &Ty,
    parameter_names: &Vec<String>,
    substitutions: &mut Vec<(String, Ty)>,
    aliases: &TypeTable,
    generic_types: &Vec<GenericTypeSymbol>,
    source: SourceRef,
) -> (r: Result<(), Diagnostic>)
    requires
        unique_keys(old(substitutions)@),
        aliases.wf(),
    ensures
        unique_keys(final(substitutions)@),
        generic_infers(
            *base,
            *actual,
            parameter_names@,
            *aliases,
            generic_types@,
            old(substitutions)@,
            final(substitutions)@,
            match r {
                Ok(_) => None,
                Err(d) => Some(d.kind),
            },
        ),
    decreases ty_depth(*actual), *base, 0int,
{
    let name = match &base.kind {
        ExprSyntaxKind::Ident(b) => &b.name,
        _ => {
            return Err(type_inference_mismatch(base, actual, source));
        },
    };
    let generic = match find_generic(generic_types, name) {
        Some(g) => g,
        None => {
            return Err(type_inference_mismatch(base, actual, source));
        },
    };
    match actual {
        Ty::Named { definition, underlying } => {
            if *definition != generic.id {
                return Err(type_inference_mismatch(base, actual, source));
            }
            infer_type_expression(
                &generic.underlying,
                underlying,
                parameter_names,
                substitutions,
                aliases,
                generic_types,
                source,
            )
        },
        _ => Err(type_inference_mismatch(base, actual, source)),
    }
}

} // verus!
