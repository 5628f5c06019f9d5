use gors_semantic::hir::{DiagnosticKind, NodeId, SourceRef};
use gors_semantic::recursion::{
    bare_parameter, collect_children, collect_referenced_parameters, ensure_finite_instantiation,
    parameter_slots, path_exists, reachable_vertices, Edge, GenericTypeSymbol, GenericTypeTable, Vertex,
};
use gors_semantic::syntax::{
    ExprSyntax, ExprSyntaxKind, FieldListSyntax, FieldSyntax, IdentSyntax, SyntaxSource, Token,
};

fn at() -> SyntaxSource {
    SyntaxSource { start: 0, end: 0 }
}

fn source() -> SourceRef {
    SourceRef::Node(NodeId { owner: 3, local: 3 })
}

fn expr(kind: ExprSyntaxKind) -> ExprSyntax {
    ExprSyntax { kind, source: at() }
}

fn ident(n: &str) -> IdentSyntax {
    IdentSyntax { name: n.to_string(), source: at() }
}

fn name(n: &str) -> ExprSyntax {
    expr(ExprSyntaxKind::Ident(ident(n)))
}

fn index(base: &str, argument: ExprSyntax) -> ExprSyntax {
    expr(ExprSyntaxKind::Index { base: Box::new(name(base)), index: Box::new(argument) })
}

fn slice_of(element: ExprSyntax) -> ExprSyntax {
    expr(ExprSyntaxKind::ArrayType { length: None, element: Box::new(element) })
}

fn pointer(element: ExprSyntax) -> ExprSyntax {
    expr(ExprSyntaxKind::Unary { token: Token::MUL, expression: Box::new(element) })
}

fn struct_of(fields: Vec<(&str, ExprSyntax)>) -> ExprSyntax {
    expr(ExprSyntaxKind::StructType {
        fields: FieldListSyntax {
            fields: fields
                .into_iter()
                .map(|(n, t)| FieldSyntax { names: Some(vec![ident(n)]), ty: Some(t) })
                .collect(),
        },
    })
}

fn type_parameters(names: &[&str]) -> FieldListSyntax {
    FieldListSyntax {
        fields: vec![FieldSyntax { names: Some(names.iter().map(|n| ident(n)).collect()), ty: Some(name("any")) }],
    }
}

fn generic(id: u64, parameters: &[&str], underlying: ExprSyntax) -> GenericTypeSymbol {
    GenericTypeSymbol { id, type_parameters: type_parameters(parameters), underlying, alias: false }
}

fn v(definition: u64, parameter: usize) -> Vertex {
    Vertex { definition, parameter }
}

fn e(a: Vertex, b: Vertex) -> Edge {
    Edge { source: a, destination: b, derived: false }
}

#[test]
fn reachable_vertices_follow_edges_transitively() {
    let edges = vec![e(v(1, 0), v(2, 0)), e(v(2, 0), v(3, 0)), e(v(4, 0), v(1, 0))];
    let mut reached = reachable_vertices(&[v(1, 0)], &edges);
    reached.sort_by_key(|x| (x.definition, x.parameter));
    assert_eq!(reached, vec![v(1, 0), v(2, 0), v(3, 0)]);
}

#[test]
fn paths_exist_along_edges_and_to_the_start_itself() {
    let edges = vec![e(v(1, 0), v(2, 0)), e(v(2, 0), v(1, 1))];
    assert!(path_exists(v(1, 0), v(1, 1), &edges));
    assert!(path_exists(v(2, 0), v(2, 0), &edges));
    assert!(!path_exists(v(1, 1), v(1, 0), &edges));
}

#[test]
fn blank_type_parameters_keep_their_slot() {
    let slots = parameter_slots(&type_parameters(&["K", "_", "V"]));
    assert_eq!(slots, vec![Some("K".to_string()), None, Some("V".to_string())]);
}

#[test]
fn a_bare_parameter_may_be_parenthesized() {
    let slots = parameter_slots(&type_parameters(&["A", "B"]));
    let wrapped = expr(ExprSyntaxKind::Paren(Box::new(name("B"))));
    assert_eq!(bare_parameter(&wrapped, &slots), Some(1));
    assert_eq!(bare_parameter(&slice_of(name("B")), &slots), None);
}

#[test]
fn referenced_parameters_are_found_at_any_depth() {
    let slots = parameter_slots(&type_parameters(&["A", "B", "C"]));
    let argument = struct_of(vec![("x", slice_of(name("C"))), ("y", pointer(name("A")))]);
    let mut referenced = Vec::new();
    collect_referenced_parameters(&argument, &slots, &mut referenced);
    referenced.sort();
    assert_eq!(referenced, vec![0, 2]);
}

#[test]
fn children_come_in_source_order() {
    let e = index("List", slice_of(name("T")));
    let mut children = Vec::new();
    collect_children(&e, &mut children);
    assert_eq!(children.len(), 2);
    assert!(matches!(&children[0].kind, ExprSyntaxKind::Ident(i) if i.name == "List"));
    assert!(matches!(&children[1].kind, ExprSyntaxKind::ArrayType { .. }));
}

#[test]
fn plain_recursion_through_the_same_parameter_is_finite() {
    let list = generic(1, &["T"], struct_of(vec![("next", pointer(index("List", name("T")))), ("value", name("T"))]));
    let table = GenericTypeTable { entries: vec![("List".to_string(), list)] };
    assert!(ensure_finite_instantiation(1, &table, source()).is_ok());
}

#[test]
fn recursion_through_a_larger_argument_expands() {
    let grow = generic(1, &["T"], struct_of(vec![("next", pointer(index("Grow", slice_of(name("T")))))]));
    let table = GenericTypeTable { entries: vec![("Grow".to_string(), grow)] };
    let err = ensure_finite_instantiation(1, &table, source()).unwrap_err();
    assert_eq!(err.kind, DiagnosticKind::Semantic);
    assert_eq!(err.message, "expanding recursive generic instantiation involving Grow");
    assert_eq!(err.source, Some(source()));
}

#[test]
fn expansion_through_another_generic_type_is_found() {
    let a = generic(1, &["T"], struct_of(vec![("b", pointer(index("B", slice_of(name("T")))))]));
    let b = generic(2, &["U"], struct_of(vec![("a", pointer(index("A", name("U"))))]));
    let table = GenericTypeTable { entries: vec![("A".to_string(), a), ("B".to_string(), b)] };
    assert!(ensure_finite_instantiation(2, &table, source()).is_err());
}

#[test]
fn an_expanding_cycle_the_root_cannot_reach_is_ignored() {
    let grow = generic(1, &["T"], struct_of(vec![("next", pointer(index("Grow", slice_of(name("T")))))]));
    let plain = generic(2, &["U"], struct_of(vec![("value", name("U"))]));
    let table = GenericTypeTable { entries: vec![("Grow".to_string(), grow), ("Plain".to_string(), plain)] };
    assert!(ensure_finite_instantiation(2, &table, source()).is_ok());
}

#[test]
fn an_unknown_root_is_reported_by_a_generic_name() {
    let grow = generic(1, &["T"], struct_of(vec![("next", pointer(index("Grow", slice_of(name("T")))))]));
    let table = GenericTypeTable { entries: vec![("Grow".to_string(), grow)] };
    assert!(ensure_finite_instantiation(99, &table, source()).is_ok());
}
