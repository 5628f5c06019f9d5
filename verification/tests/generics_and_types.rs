use gors_semantic::channels::{channel_parts, channel_representation, ChannelRepresentation};
use gors_semantic::conversions::{
    is_byte_slice_type, is_integer_conversion, is_nil_identifier, is_numeric_conversion, is_predeclared_conversion_name,
    is_rune_slice_type, is_string_conversion_source,
};
use gors_semantic::generics::{
    apply_untyped_constant_defaults, direct_alias_parameter, generic_embedded_field_name,
    merge_untyped_constant_kinds, prefer_defined_type, type_contains_instantiation, type_parameter_names_in_order,
};
use gors_semantic::hir::{Builtin, DiagnosticKind, NodeId, SourceRef};
use gors_semantic::syntax::{ExprSyntax, ExprSyntaxKind, FieldListSyntax, FieldSyntax, IdentSyntax, SyntaxSource, Token};
use gors_semantic::types::{ChannelDir, ComplexTy, FloatTy, IntTy, Ty, UintTy, UntypedTy};

fn at() -> SyntaxSource {
    SyntaxSource { start: 0, end: 0 }
}

fn ident(n: &str) -> IdentSyntax {
    IdentSyntax { name: n.to_string(), source: at() }
}

fn name(n: &str) -> ExprSyntax {
    ExprSyntax { kind: ExprSyntaxKind::Ident(ident(n)), source: at() }
}

fn wrap(kind: ExprSyntaxKind) -> ExprSyntax {
    ExprSyntax { kind, source: at() }
}

fn parameters(names: &[&str]) -> FieldListSyntax {
    FieldListSyntax { fields: vec![FieldSyntax { names: Some(names.iter().map(|n| ident(n)).collect()), ty: Some(name("any")) }] }
}

#[test]
fn untyped_constant_kinds_merge_to_the_wider_kind() {
    assert_eq!(merge_untyped_constant_kinds(UntypedTy::Int, UntypedTy::Float), Some(UntypedTy::Float));
    assert_eq!(merge_untyped_constant_kinds(UntypedTy::Complex, UntypedTy::Rune), Some(UntypedTy::Complex));
    assert_eq!(merge_untyped_constant_kinds(UntypedTy::String, UntypedTy::String), Some(UntypedTy::String));
    assert_eq!(merge_untyped_constant_kinds(UntypedTy::Bool, UntypedTy::Int), None);
}

#[test]
fn untyped_defaults_fill_only_unbound_parameters() {
    let mut substitutions = vec![("A".to_string(), Ty::String)];
    apply_untyped_constant_defaults(
        &mut substitutions,
        vec![("A".to_string(), UntypedTy::Int), ("B".to_string(), UntypedTy::Rune), ("C".to_string(), UntypedTy::Float)],
    );
    let find = |n: &str| substitutions.iter().find(|(k, _)| k == n).map(|(_, t)| t.clone());
    assert_eq!(find("A"), Some(Ty::String));
    assert_eq!(find("B"), Some(Ty::Int(IntTy::Int32)));
    assert_eq!(find("C"), Some(Ty::Float(FloatTy::Float64)));
}

#[test]
fn the_defined_type_is_preferred() {
    let named = Ty::Named { definition: 1, underlying: Box::new(Ty::Int(IntTy::Int)) };
    assert_eq!(prefer_defined_type(&Ty::Int(IntTy::Int), &named), Some(named.clone()));
    assert_eq!(prefer_defined_type(&named, &Ty::Int(IntTy::Int)), Some(named.clone()));
    assert_eq!(prefer_defined_type(&Ty::Int(IntTy::Int), &Ty::Int(IntTy::Int)), None);
    assert_eq!(prefer_defined_type(&named, &Ty::String), None);
}

#[test]
fn type_parameter_names_keep_their_order() {
    let names = type_parameter_names_in_order(&parameters(&["K", "V"]), SourceRef::Node(NodeId { owner: 1, local: 1 })).unwrap();
    assert_eq!(names, vec!["K".to_string(), "V".to_string()]);
    let err = type_parameter_names_in_order(&parameters(&["K", "K"]), SourceRef::Node(NodeId { owner: 1, local: 1 })).unwrap_err();
    assert_eq!(err.kind, DiagnosticKind::Semantic);
}

#[test]
fn embedded_generic_fields_are_named_by_their_type() {
    let embedded = wrap(ExprSyntaxKind::Unary {
        token: Token::MUL,
        expression: Box::new(wrap(ExprSyntaxKind::Index { base: Box::new(name("List")), index: Box::new(name("T")) })),
    });
    assert_eq!(generic_embedded_field_name(&embedded), Some("List".to_string()));
    assert_eq!(direct_alias_parameter(&wrap(ExprSyntaxKind::Paren(Box::new(name("T"))))), Some("T"));
    assert!(type_contains_instantiation(&embedded));
    assert!(!type_contains_instantiation(&name("T")));
}

#[test]
fn conversion_categories() {
    assert!(is_predeclared_conversion_name("float64"));
    assert!(!is_predeclared_conversion_name("vector"));
    assert!(is_integer_conversion(&Ty::Int(IntTy::Int8), &Ty::Uint(UintTy::Uint64)));
    assert!(!is_integer_conversion(&Ty::Float(FloatTy::Float32), &Ty::Int(IntTy::Int)));
    assert!(is_numeric_conversion(&Ty::Float(FloatTy::Float32), &Ty::Int(IntTy::Int)));
    assert!(is_numeric_conversion(&Ty::Complex(ComplexTy::Complex64), &Ty::Complex(ComplexTy::Complex128)));
    assert!(!is_numeric_conversion(&Ty::Complex(ComplexTy::Complex64), &Ty::Float(FloatTy::Float64)));
    assert!(is_byte_slice_type(&Ty::Slice(Box::new(Ty::Uint(UintTy::Uint8)))));
    assert!(is_rune_slice_type(&Ty::Slice(Box::new(Ty::Int(IntTy::Int32)))));
    assert!(is_string_conversion_source(&Ty::Untyped(UntypedTy::String)));
    assert!(!is_string_conversion_source(&Ty::Int(IntTy::Int64)));
    assert!(is_nil_identifier(&name("nil")));
    assert!(!is_nil_identifier(&name("null")));
}

#[test]
fn channel_representations_by_element_type() {
    assert_eq!(channel_representation(&Ty::Int(IntTy::Int)), Some(ChannelRepresentation::I64));
    assert_eq!(channel_representation(&Ty::String), Some(ChannelRepresentation::GoString));
    assert_eq!(channel_representation(&Ty::Bool), None);
    let ty = Ty::Channel(ChannelDir::Receive, Box::new(Ty::String));
    let (direction, element, representation) = channel_parts(&ty).unwrap();
    assert_eq!(direction, ChannelDir::Receive);
    assert_eq!(*element, Ty::String);
    assert_eq!(representation.builtins().close, Builtin::ChannelGoStringClose);
}
