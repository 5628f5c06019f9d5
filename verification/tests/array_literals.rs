use gors_semantic::constant::ConstValue;
use gors_semantic::constants::{ConstantSymbol, ConstantTable};
use gors_semantic::function::{FunctionLowerer, LocalConstantSymbol, LocalKind};
use gors_semantic::hir::{DiagnosticKind, NodeId, SourceRef};
use gors_semantic::syntax::{ExprSyntax, ExprSyntaxKind, IdentSyntax, SyntaxSource, Token};
use gors_semantic::types::{IntTy, Ty, UintTy, UntypedTy};

fn at() -> SyntaxSource {
    SyntaxSource { start: 0, end: 0 }
}

fn source() -> SourceRef {
    SourceRef::Node(NodeId { owner: 8, local: 8 })
}

fn expr(kind: ExprSyntaxKind) -> ExprSyntax {
    ExprSyntax { kind, source: at() }
}

fn lit(spelling: &str) -> ExprSyntax {
    expr(ExprSyntaxKind::Literal { token: Token::INT, spelling: spelling.to_string() })
}

fn name(n: &str) -> ExprSyntax {
    expr(ExprSyntaxKind::Ident(IdentSyntax { name: n.to_string(), source: at() }))
}

fn keyed(key: ExprSyntax, value: ExprSyntax) -> ExprSyntax {
    expr(ExprSyntaxKind::KeyValue { key: Box::new(key), value: Box::new(value) })
}

fn lowerer() -> FunctionLowerer {
    let package = ConstantTable {
        entries: vec![
            ConstantSymbol { name: "K".to_string(), ty: Ty::Untyped(UntypedTy::Int), value: ConstValue::Int("10".to_string()) },
            ConstantSymbol { name: "S".to_string(), ty: Ty::String, value: ConstValue::String(b"s".to_vec()) },
        ],
    };
    FunctionLowerer::new(8, package, vec![("Byte".to_string(), Ty::Uint(UintTy::Uint8))])
}

fn spelling(value: &ConstValue) -> String {
    match value {
        ConstValue::Int(s) => s.clone(),
        _ => panic!("not an integer"),
    }
}

#[test]
fn function_constants_shadow_package_constants() {
    let mut f = lowerer();
    let (_, v) = f.eval_constant_expression(&name("K"), source(), 0).unwrap();
    assert_eq!(spelling(&v), "10");
    f.push_scope();
    let local = LocalConstantSymbol { ty: Ty::Int(IntTy::Int), value: ConstValue::Int("3".to_string()) };
    f.bind_local_constant("K".to_string(), local, source()).unwrap();
    let (ty, v) = f.eval_constant_expression(&name("K"), source(), 0).unwrap();
    assert_eq!(ty, Ty::Int(IntTy::Int));
    assert_eq!(spelling(&v), "3");
    f.pop_scope();
    let (_, v) = f.eval_constant_expression(&name("K"), source(), 0).unwrap();
    assert_eq!(spelling(&v), "10");
}

#[test]
fn conversions_in_function_constants_use_the_aliases_in_scope() {
    let f = lowerer();
    let call = expr(ExprSyntaxKind::Call { callee: Box::new(name("Byte")), arguments: vec![lit("255")], spread: false });
    let (ty, v) = f.eval_constant_expression(&call, source(), 0).unwrap();
    assert_eq!(ty, Ty::Uint(UintTy::Uint8));
    assert_eq!(spelling(&v), "255");
}

#[test]
fn a_local_variable_hides_an_outer_local_constant() {
    let mut f = lowerer();
    let local = LocalConstantSymbol { ty: Ty::Int(IntTy::Int), value: ConstValue::Int("3".to_string()) };
    f.bind_local_constant("C".to_string(), local, source()).unwrap();
    f.push_scope();
    f.alloc_local(Some("C".to_string()), Ty::Int(IntTy::Int), LocalKind::Variable, at()).unwrap();
    let err = f.eval_constant_expression(&name("C"), source(), 0).unwrap_err();
    assert_eq!(err.kind, DiagnosticKind::Semantic);
}

#[test]
fn array_literal_length_counts_positional_elements() {
    let f = lowerer();
    assert_eq!(f.infer_array_literal_length(&[lit("1"), lit("2"), lit("3")], source()).unwrap(), 3);
    assert_eq!(f.infer_array_literal_length(&[], source()).unwrap(), 0);
}

#[test]
fn array_literal_length_follows_keys() {
    let f = lowerer();
    let elements = [keyed(lit("5"), lit("1")), lit("2"), keyed(name("K"), lit("3")), keyed(lit("0"), lit("4"))];
    assert_eq!(f.infer_array_literal_length(&elements, source()).unwrap(), 11);
}

#[test]
fn array_literal_keys_must_be_non_negative_integer_constants() {
    let f = lowerer();
    let negative = expr(ExprSyntaxKind::Unary { token: Token::SUB, expression: Box::new(lit("1")) });
    let err = f.infer_array_literal_length(&[keyed(negative, lit("1"))], source()).unwrap_err();
    assert_eq!(err.kind, DiagnosticKind::Semantic);
    assert_eq!(err.message, "array literal index is outside u64");
    let err = f.infer_array_literal_length(&[keyed(name("S"), lit("1"))], source()).unwrap_err();
    assert_eq!(err.message, "array literal index must be an integer constant");
}

#[test]
fn array_literal_longer_than_the_limit_is_unsupported() {
    let f = lowerer();
    let err = f.infer_array_literal_length(&[keyed(lit("2000000"), lit("1"))], source()).unwrap_err();
    assert_eq!(err.kind, DiagnosticKind::Unsupported);
    assert_eq!(err.message, "array length 2000001 exceeds the current implementation limit of 1048576");
}

#[test]
fn positional_literals_have_no_index_table() {
    let f = lowerer();
    assert!(f.indexed_composite_elements(&[lit("1"), lit("2")], source()).unwrap().is_none());
}

#[test]
fn keyed_literals_fill_their_slots() {
    let f = lowerer();
    let elements = [keyed(lit("2"), lit("20")), lit("30"), keyed(lit("0"), lit("0"))];
    let slots = f.indexed_composite_elements(&elements, source()).unwrap().unwrap();
    assert_eq!(slots.len(), 4);
    let spelled: Vec<Option<String>> = slots
        .iter()
        .map(|slot| slot.map(|e| match &e.kind {
            ExprSyntaxKind::Literal { spelling, .. } => spelling.clone(),
            _ => panic!("expected a literal"),
        }))
        .collect();
    assert_eq!(spelled, vec![Some("0".to_string()), None, Some("20".to_string()), Some("30".to_string())]);
}

#[test]
fn a_slot_initialized_twice_is_refused() {
    let f = lowerer();
    let elements = [keyed(lit("1"), lit("10")), keyed(lit("0"), lit("0")), lit("11")];
    let err = match f.indexed_composite_elements(&elements, source()) {
        Err(e) => e,
        Ok(_) => panic!("expected a duplicate slot"),
    };
    assert_eq!(err.kind, DiagnosticKind::Semantic);
    assert_eq!(err.message, "composite literal index 1 is initialized more than once");
}
