//! Go `len`/`cap` constness and the operands that each accepts.

use vstd::prelude::*;

use crate::constant::ConstValue;
use crate::conversions::spec_is_nilable_type;
use crate::hir::{Diagnostic, DiagnosticKind, SourceRef};
use crate::syntax::{ExprSyntax, ExprSyntaxKind, Token};
use crate::types::{Ty, UntypedTy};

verus! {

/// The two length builtins.
#[derive(Clone, Copy, Debug, PartialEq, Eq, Structural)]
pub enum LengthCapacityOp {
    Len,
    Cap,
}

impl LengthCapacityOp {
    pub open spec fn spec_name(self) -> Seq<char> {
        match self {
            LengthCapacityOp::Len => "len"@,
            LengthCapacityOp::Cap => "cap"@,
        }
    }

    /// The builtin's name in source.
    pub fn name(self) -> (r: &'static str)
        ensures
            r@ == self.spec_name(),
    {
        match self {
            LengthCapacityOp::Len => "len",
            LengthCapacityOp::Cap => "cap",
        }
    }
}

/// Whether `len`/`cap` of an operand is a constant, and which.
#[derive(Clone, Copy, Debug, PartialEq, Eq, Structural)]
pub enum LengthCapacityClass {
    Constant(u64),
    Runtime,
}

/// The length of an array, or of the array a pointer points to.
pub open spec fn spec_array_or_pointer_length(ty: Ty) -> Option<u64> {
    match ty.spec_underlying() {
        Ty::Array(length, _) => Some(length),
        Ty::Pointer(element) => match element.spec_underlying() {
            Ty::Array(length, _) => Some(length),
            _ => None,
        },
        _ => None,
    }
}

pub fn array_or_pointer_length(ty: &Ty) -> (r: Option<u64>)
    ensures
        r == spec_array_or_pointer_length(*ty),
{
    match ty.underlying() {
        Ty::Array(length, _) => Some(*length),
        Ty::Pointer(element) => match element.underlying() {
            Ty::Array(length, _) => Some(*length),
            _ => None,
        },
        _ => None,
    }
}

/// How `len`/`cap` of an operand of type `ty` is classified, or `None`
/// when the builtin does not apply to it.  A string constant has a constant
/// length; so has an array, or a pointer to one, unless evaluating the
/// operand calls a function or receives from a channel.
pub open spec fn spec_classify(
    operation: LengthCapacityOp,
    ty: Ty,
    constant: Option<ConstValue>,
    contains_call_or_receive: bool,
) -> Option<LengthCapacityClass> {
    let underlying = ty.spec_underlying();
    if underlying == Ty::String || underlying == Ty::Untyped(UntypedTy::String) {
        if operation == LengthCapacityOp::Cap {
            None
        } else {
            Some(
                match constant {
                    Some(ConstValue::String(bytes)) => LengthCapacityClass::Constant(bytes@.len() as u64),
                    _ => LengthCapacityClass::Runtime,
                },
            )
        }
    } else if spec_array_or_pointer_length(ty) is Some {
        if contains_call_or_receive {
            Some(LengthCapacityClass::Runtime)
        } else {
            Some(LengthCapacityClass::Constant(spec_array_or_pointer_length(ty)->0))
        }
    } else if underlying is Slice || underlying is Channel || (underlying is MapTy && operation
        == LengthCapacityOp::Len) {
        Some(LengthCapacityClass::Runtime)
    } else {
        None
    }
}

/// `len` and `cap` by the operand's type: both are defined for every slice
/// and channel and evaluated at run time; `len` of a map is too, but `cap`
/// of a map is not defined; an array, or a pointer to one, has its length
/// as a constant unless evaluating the operand calls or receives; `len` of
/// a string constant is its byte count and `cap` of a string is not
/// defined; booleans and numbers have neither.
pub proof fn lemma_len_cap_by_operand_type(
    operation: LengthCapacityOp,
    ty: Ty,
    constant: Option<ConstValue>,
    calls: bool,
)
    ensures
        ty.spec_underlying() is Slice ==> spec_classify(operation, ty, constant, calls) == Some(
            LengthCapacityClass::Runtime,
        ),
        ty.spec_underlying() is Channel ==> spec_classify(operation, ty, constant, calls) == Some(
            LengthCapacityClass::Runtime,
        ),
        ty.spec_underlying() is MapTy ==> spec_classify(LengthCapacityOp::Len, ty, constant, calls) == Some(
            LengthCapacityClass::Runtime,
        ) && spec_classify(LengthCapacityOp::Cap, ty, constant, calls) is None,
        ty.spec_underlying() matches Ty::Array(n, _) ==> spec_classify(operation, ty, constant, calls) == Some(
            if calls {
                LengthCapacityClass::Runtime
            } else {
                LengthCapacityClass::Constant(n)
            },
        ),
        ty.spec_underlying() == Ty::String ==> spec_classify(LengthCapacityOp::Cap, ty, constant, calls) is None
            && (constant matches Some(ConstValue::String(bytes)) ==> spec_classify(
            LengthCapacityOp::Len,
            ty,
            constant,
            calls,
        ) == Some(LengthCapacityClass::Constant(bytes@.len() as u64))),
        (ty.spec_underlying() == Ty::Bool || ty.spec_underlying() is Int || ty.spec_underlying() is Uint
            || ty.spec_underlying() is Float) ==> spec_classify(operation, ty, constant, calls) is None,
{
}

/// The message of an operand that the builtin does not apply to.
pub open spec fn invalid_operand_message(operation: LengthCapacityOp) -> Seq<char> {
    "invalid argument: "@ + operation.spec_name() + " is not defined for the operand type"@
}

/// The diagnostic for an operand that the builtin does not apply to.
pub fn invalid_operand(operation: LengthCapacityOp, ty: &Ty, source: SourceRef) -> (r: Diagnostic)
    ensures
        r.kind == DiagnosticKind::Semantic,
        r.source == Some(source),
        r.message@ == invalid_operand_message(operation),
{
    let mut message = String::from_str("invalid argument: ");
    message.append(operation.name());
    message.append(" is not defined for the operand type");
    Diagnostic { kind: DiagnosticKind::Semantic, message, source: Some(source) }
}

/// Classifies a type-checked `len`/`cap` operand before any executable
/// representation is chosen.
pub fn classify(
    operation: LengthCapacityOp,
    ty: &Ty,
    constant: Option<&ConstValue>,
    contains_call_or_receive: bool,
    source: SourceRef,
) -> (r: Result<LengthCapacityClass, Diagnostic>)
    ensures
        r is Ok <==> spec_classify(
            operation,
            *ty,
            match constant {
                Some(c) => Some(*c),
                None => None,
            },
            contains_call_or_receive,
        ) is Some,
        r matches Ok(c) ==> spec_classify(
            operation,
            *ty,
            match constant {
                Some(c) => Some(*c),
                None => None,
            },
            contains_call_or_receive,
        ) == Some(c),
        r matches Err(d) ==> d.kind == DiagnosticKind::Semantic && d.source == Some(source) && d.message@
            == invalid_operand_message(operation),
{
    let underlying = ty.underlying();
    if matches!(underlying, Ty::String | Ty::Untyped(UntypedTy::String)) {
        if operation == LengthCapacityOp::Cap {
            return Err(invalid_operand(operation, ty, source));
        }
        return Ok(
            match constant {
                Some(ConstValue::String(bytes)) => LengthCapacityClass::Constant(bytes.len() as u64),
                _ => LengthCapacityClass::Runtime,
            },
        );
    }
    if let Some(length) = array_or_pointer_length(ty) {
        return Ok(
            if contains_call_or_receive {
                LengthCapacityClass::Runtime
            } else {
                LengthCapacityClass::Constant(length)
            },
        );
    }
    let valid_runtime = match underlying {
        Ty::Slice(_) | Ty::Channel(_, _) => true,
        Ty::MapTy(_, _) => operation == LengthCapacityOp::Len,
        _ => false,
    };
    if valid_runtime {
        Ok(LengthCapacityClass::Runtime)
    } else {
        Err(invalid_operand(operation, ty, source))
    }
}

/// Whether `nil` is a value of the type.
pub fn is_nilable(ty: &Ty) -> (r: bool)
    ensures
        r == spec_is_nilable_type(*ty),
{
    match ty.underlying() {
        Ty::Pointer(_) | Ty::Slice(_) | Ty::MapTy(_, _) | Ty::Channel(_, _) | Ty::Function(_) | Ty::Interface(
            _,
        ) => true,
        _ => false,
    }
}

/// The name that an operand is, parentheses aside.
pub open spec fn operand_name(e: ExprSyntax) -> Option<Seq<char>>
    decreases e,
{
    match e.kind {
        ExprSyntaxKind::Paren(inner) => operand_name(*inner),
        ExprSyntaxKind::Ident(identifier) => Some(identifier.name@),
        _ => None,
    }
}

/// An operand that is addressable by its shape alone, parentheses aside:
/// an indirection, a composite literal, an index or a selector.
pub open spec fn addressable_shape(e: ExprSyntax) -> bool
    decreases e,
{
    match e.kind {
        ExprSyntaxKind::Paren(inner) => addressable_shape(*inner),
        ExprSyntaxKind::Unary { token, .. } => token == Token::MUL,
        ExprSyntaxKind::CompositeLiteral { .. } => true,
        ExprSyntaxKind::Index { .. } => true,
        ExprSyntaxKind::Selector { .. } => true,
        _ => false,
    }
}

/// Whether `&expression` is allowed: a name is addressable when it names a
/// variable, as the caller's resolution decides.
pub fn source_is_addressable<F: Fn(&str) -> bool>(expression: &ExprSyntax, identifier_is_variable: &F) -> (r:
    bool)
    requires
        forall|name: &str| identifier_is_variable.requires((name,)),
    ensures
        operand_name(*expression) is None ==> r == addressable_shape(*expression),
        operand_name(*expression) matches Some(n) ==> exists|name: &str|
            name@ == n && identifier_is_variable.ensures((name,), r),
    decreases expression,
{
    match &expression.kind {
        ExprSyntaxKind::Paren(inner) => source_is_addressable(inner, identifier_is_variable),
        ExprSyntaxKind::Ident(identifier) => {
            let name = identifier.name.as_str();
            identifier_is_variable(name)
        },
        ExprSyntaxKind::Unary { token: Token::MUL, .. } => true,
        ExprSyntaxKind::CompositeLiteral { .. } | ExprSyntaxKind::Index { .. } | ExprSyntaxKind::Selector {
            ..
        } => true,
        _ => false,
    }
}

} // verus!
