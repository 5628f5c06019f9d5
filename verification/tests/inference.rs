use gors_semantic::constants::TypeTable;
use gors_semantic::hir::{DiagnosticKind, NodeId, SourceRef};
use gors_semantic::inference::{infer_type_expression, GenericTypeSymbol};
use gors_semantic::syntax::{ExprSyntax, ExprSyntaxKind, IdentSyntax, SyntaxSource, Token};
use gors_semantic::types::{ChannelDir, IntTy, Ty};

fn source() -> SourceRef {
    SourceRef::Node(NodeId { owner: 7, local: 1 })
}

fn at() -> SyntaxSource {
    SyntaxSource { start: 0, end: 0 }
}

fn expr(kind: ExprSyntaxKind) -> ExprSyntax {
    ExprSyntax { kind, source: at() }
}

fn name(n: &str) -> ExprSyntax {
    expr(ExprSyntaxKind::Ident(IdentSyntax { name: n.to_string(), source: at() }))
}

fn slice_of(e: ExprSyntax) -> ExprSyntax {
    expr(ExprSyntaxKind::ArrayType { length: None, element: Box::new(e) })
}

fn bound(s: &Vec<(String, Ty)>, n: &str) -> Option<Ty> {
    s.iter().find(|(k, _)| k == n).map(|(_, t)| t.clone())
}

fn params() -> Vec<String> {
    vec!["T".to_string()]
}

#[test]
fn a_slice_pattern_binds_its_element() {
    let mut s = Vec::new();
    let actual = Ty::Slice(Box::new(Ty::Int(IntTy::Int64)));
    infer_type_expression(&slice_of(name("T")), &actual, &params(), &mut s, &TypeTable::empty(), &Vec::new(), source()).unwrap();
    assert_eq!(bound(&s, "T"), Some(Ty::Int(IntTy::Int64)));
}

#[test]
fn conflicting_bindings_are_refused_and_defined_types_win() {
    let mut s = vec![("T".to_string(), Ty::Int(IntTy::Int))];
    let err = infer_type_expression(&name("T"), &Ty::String, &params(), &mut s, &TypeTable::empty(), &Vec::new(), source()).unwrap_err();
    assert_eq!(err.kind, DiagnosticKind::Semantic);
    assert_eq!(bound(&s, "T"), Some(Ty::Int(IntTy::Int)));
    let defined = Ty::Named { definition: 3, underlying: Box::new(Ty::Int(IntTy::Int)) };
    infer_type_expression(&name("T"), &defined, &params(), &mut s, &TypeTable::empty(), &Vec::new(), source()).unwrap();
    assert_eq!(bound(&s, "T"), Some(defined));
}

#[test]
fn pointers_and_channels_are_matched_structurally() {
    let mut s = Vec::new();
    let ptr = expr(ExprSyntaxKind::Unary { token: Token::MUL, expression: Box::new(name("T")) });
    infer_type_expression(&ptr, &Ty::Pointer(Box::new(Ty::Bool)), &params(), &mut s, &TypeTable::empty(), &Vec::new(), source()).unwrap();
    assert_eq!(bound(&s, "T"), Some(Ty::Bool));
    let mut s = Vec::new();
    let recv = expr(ExprSyntaxKind::ChannelType { direction: ChannelDir::Receive, element: Box::new(name("T")) });
    infer_type_expression(&recv, &Ty::Channel(ChannelDir::SendReceive, Box::new(Ty::String)), &params(), &mut s, &TypeTable::empty(), &Vec::new(), source()).unwrap();
    assert_eq!(bound(&s, "T"), Some(Ty::String));
    let mut s = Vec::new();
    let err = infer_type_expression(&recv, &Ty::Channel(ChannelDir::Send, Box::new(Ty::String)), &params(), &mut s, &TypeTable::empty(), &Vec::new(), source()).unwrap_err();
    assert_eq!(err.message, "argument type does not match the generic parameter pattern");
    assert!(s.is_empty());
}

#[test]
fn generic_instances_match_through_their_declaration() {
    let generics = vec![GenericTypeSymbol { name: "List".to_string(), id: 11, underlying: slice_of(name("T")) }];
    let pattern = expr(ExprSyntaxKind::Index { base: Box::new(name("List")), index: Box::new(name("T")) });
    let actual = Ty::Named { definition: 11, underlying: Box::new(Ty::Slice(Box::new(Ty::String))) };
    let mut s = Vec::new();
    infer_type_expression(&pattern, &actual, &params(), &mut s, &TypeTable::empty(), &generics, source()).unwrap();
    assert_eq!(bound(&s, "T"), Some(Ty::String));
    let other = Ty::Named { definition: 12, underlying: Box::new(Ty::Slice(Box::new(Ty::String))) };
    let mut s = Vec::new();
    assert!(infer_type_expression(&pattern, &other, &params(), &mut s, &TypeTable::empty(), &generics, source()).is_err());
}

#[test]
fn plain_type_names_must_equal_the_argument_type() {
    let mut s = Vec::new();
    infer_type_expression(&name("int"), &Ty::Int(IntTy::Int), &params(), &mut s, &TypeTable::empty(), &Vec::new(), source()).unwrap();
    assert!(infer_type_expression(&name("int"), &Ty::String, &params(), &mut s, &TypeTable::empty(), &Vec::new(), source()).is_err());
}
