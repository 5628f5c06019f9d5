use gors_semantic::constant::ConstValue;
use gors_semantic::hir::{DiagnosticKind, NodeId, SourceRef};
use gors_semantic::length_capacity::{
    array_or_pointer_length, classify, invalid_operand, is_nilable, source_is_addressable, LengthCapacityClass,
    LengthCapacityOp,
};
use gors_semantic::syntax::{ExprSyntax, ExprSyntaxKind, IdentSyntax, SyntaxSource, Token};
use gors_semantic::types::{ChannelDir, IntTy, Ty, UntypedTy};

fn source() -> SourceRef {
    SourceRef::Node(NodeId { owner: 4, local: 2 })
}

fn at() -> SyntaxSource {
    SyntaxSource { start: 0, end: 0 }
}

fn expr(kind: ExprSyntaxKind) -> ExprSyntax {
    ExprSyntax { kind, source: at() }
}

fn name(n: &str) -> ExprSyntax {
    expr(ExprSyntaxKind::Ident(IdentSyntax { name: n.to_string(), source: at() }))
}

fn array(n: u64) -> Ty {
    Ty::Array(n, Box::new(Ty::Int(IntTy::Int)))
}

#[test]
fn builtin_names() {
    assert_eq!(LengthCapacityOp::Len.name(), "len");
    assert_eq!(LengthCapacityOp::Cap.name(), "cap");
}

#[test]
fn constant_string_length_is_constant() {
    let value = ConstValue::String(b"hello".to_vec());
    let class = classify(LengthCapacityOp::Len, &Ty::Untyped(UntypedTy::String), Some(&value), false, source());
    assert_eq!(class.unwrap(), LengthCapacityClass::Constant(5));
    let runtime = classify(LengthCapacityOp::Len, &Ty::String, None, false, source());
    assert_eq!(runtime.unwrap(), LengthCapacityClass::Runtime);
}

#[test]
fn strings_have_no_capacity() {
    let err = classify(LengthCapacityOp::Cap, &Ty::String, None, false, source()).unwrap_err();
    assert_eq!(err.kind, DiagnosticKind::Semantic);
    assert_eq!(err.message, "invalid argument: cap is not defined for the operand type");
}

#[test]
fn array_length_is_constant_unless_the_operand_calls_or_receives() {
    let named = Ty::Named { definition: 5, underlying: Box::new(array(4)) };
    assert_eq!(classify(LengthCapacityOp::Cap, &named, None, false, source()).unwrap(), LengthCapacityClass::Constant(4));
    let to_array = Ty::Pointer(Box::new(array(7)));
    assert_eq!(classify(LengthCapacityOp::Len, &to_array, None, false, source()).unwrap(), LengthCapacityClass::Constant(7));
    assert_eq!(classify(LengthCapacityOp::Len, &to_array, None, true, source()).unwrap(), LengthCapacityClass::Runtime);
}

#[test]
fn maps_have_a_length_but_no_capacity() {
    let map = Ty::MapTy(Box::new(Ty::String), Box::new(Ty::Int(IntTy::Int)));
    assert_eq!(classify(LengthCapacityOp::Len, &map, None, false, source()).unwrap(), LengthCapacityClass::Runtime);
    assert!(classify(LengthCapacityOp::Cap, &map, None, false, source()).is_err());
    let channel = Ty::Channel(ChannelDir::SendReceive, Box::new(Ty::Bool));
    assert_eq!(classify(LengthCapacityOp::Cap, &channel, None, false, source()).unwrap(), LengthCapacityClass::Runtime);
    assert!(classify(LengthCapacityOp::Len, &Ty::Bool, None, false, source()).is_err());
}

#[test]
fn array_lengths_through_pointers() {
    assert_eq!(array_or_pointer_length(&array(3)), Some(3));
    assert_eq!(array_or_pointer_length(&Ty::Pointer(Box::new(array(3)))), Some(3));
    assert_eq!(array_or_pointer_length(&Ty::Pointer(Box::new(Ty::Pointer(Box::new(array(3)))))), None);
    assert_eq!(array_or_pointer_length(&Ty::Slice(Box::new(Ty::Bool))), None);
}

#[test]
fn invalid_operand_names_the_builtin() {
    let d = invalid_operand(LengthCapacityOp::Len, &Ty::Bool, source());
    assert_eq!(d.message, "invalid argument: len is not defined for the operand type");
    assert_eq!(d.source, Some(source()));
}

#[test]
fn nilable_types() {
    assert!(is_nilable(&Ty::Slice(Box::new(Ty::Bool))));
    assert!(is_nilable(&Ty::Named { definition: 1, underlying: Box::new(Ty::Pointer(Box::new(Ty::Bool))) }));
    assert!(!is_nilable(&array(2)));
    assert!(!is_nilable(&Ty::String));
}

#[test]
fn addressability_by_shape_and_by_name() {
    let is_variable = |n: &str| n == "v";
    assert!(source_is_addressable(&name("v"), &is_variable));
    assert!(!source_is_addressable(&name("f"), &is_variable));
    let paren = expr(ExprSyntaxKind::Paren(Box::new(name("v"))));
    assert!(source_is_addressable(&paren, &is_variable));
    let deref = expr(ExprSyntaxKind::Unary { token: Token::MUL, expression: Box::new(name("p")) });
    assert!(source_is_addressable(&deref, &is_variable));
    let negated = expr(ExprSyntaxKind::Unary { token: Token::SUB, expression: Box::new(name("v")) });
    assert!(!source_is_addressable(&negated, &is_variable));
    let selector = expr(ExprSyntaxKind::Selector { base: Box::new(name("s")), selector: IdentSyntax { name: "f".to_string(), source: at() } });
    assert!(source_is_addressable(&selector, &is_variable));
}
