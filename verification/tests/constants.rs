use gors_semantic::constant::ConstValue;
use gors_semantic::constants::{
    eval_constant, eval_constant_with_lookup, predeclared_constant_type, validate_constant_binary_operator,
    ConstantSymbol, ConstantTable, TypeAlias, TypeTable,
};
use gors_semantic::hir::{BinaryOp, DiagnosticKind, NodeId, SourceRef};
use gors_semantic::syntax::{ExprSyntax, ExprSyntaxKind, IdentSyntax, SyntaxSource, Token};
use gors_semantic::types::{FloatTy, IntTy, Ty, UintTy, UntypedTy};

fn at() -> SyntaxSource {
    SyntaxSource { start: 0, end: 0 }
}

fn source() -> SourceRef {
    SourceRef::Node(NodeId { owner: 1, local: 0 })
}

fn expr(kind: ExprSyntaxKind) -> ExprSyntax {
    ExprSyntax { kind, source: at() }
}

fn lit(token: Token, spelling: &str) -> ExprSyntax {
    expr(ExprSyntaxKind::Literal { token, spelling: spelling.to_string() })
}

fn name(n: &str) -> ExprSyntax {
    expr(ExprSyntaxKind::Ident(IdentSyntax { name: n.to_string(), source: at() }))
}

fn binary(left: ExprSyntax, token: Token, right: ExprSyntax) -> ExprSyntax {
    expr(ExprSyntaxKind::Binary { left: Box::new(left), token, right: Box::new(right) })
}

fn unary(token: Token, operand: ExprSyntax) -> ExprSyntax {
    expr(ExprSyntaxKind::Unary { token, expression: Box::new(operand) })
}

fn call(callee: &str, arguments: Vec<ExprSyntax>) -> ExprSyntax {
    expr(ExprSyntaxKind::Call { callee: Box::new(name(callee)), arguments, spread: false })
}

fn no_constants() -> ConstantTable {
    ConstantTable { entries: Vec::new() }
}

fn int_of(value: &ConstValue) -> String {
    match value {
        ConstValue::Int(s) => s.clone(),
        _ => panic!("not an integer constant"),
    }
}

#[test]
fn integer_arithmetic_folds_exactly() {
    let e = binary(lit(Token::INT, "7"), Token::MUL, binary(lit(Token::INT, "6"), Token::SUB, lit(Token::INT, "1")));
    let (ty, value) = eval_constant(&e, &no_constants(), &TypeTable::empty(), source(), 0).unwrap();
    assert_eq!(ty, Ty::Untyped(UntypedTy::Int));
    assert_eq!(int_of(&value), "35");
}

#[test]
fn untyped_integer_division_truncates_toward_zero() {
    let e = binary(unary(Token::SUB, lit(Token::INT, "7")), Token::QUO, lit(Token::INT, "2"));
    let (_, value) = eval_constant(&e, &no_constants(), &TypeTable::empty(), source(), 0).unwrap();
    assert_eq!(int_of(&value), "-3");
}

#[test]
fn division_by_zero_is_a_semantic_error() {
    let e = binary(lit(Token::INT, "1"), Token::QUO, lit(Token::INT, "0"));
    let err = eval_constant(&e, &no_constants(), &TypeTable::empty(), source(), 0).unwrap_err();
    assert_eq!(err.kind, DiagnosticKind::Semantic);
}

#[test]
fn iota_takes_the_value_of_its_specification() {
    let e = binary(name("iota"), Token::ADD, lit(Token::INT, "10"));
    let (_, value) = eval_constant(&e, &no_constants(), &TypeTable::empty(), source(), 4).unwrap();
    assert_eq!(int_of(&value), "14");
}

#[test]
fn named_constants_keep_their_type() {
    let table = ConstantTable {
        entries: vec![ConstantSymbol {
            name: "answer".to_string(),
            ty: Ty::Int(IntTy::Int64),
            value: ConstValue::Int("42".to_string()),
        }],
    };
    let e = binary(name("answer"), Token::ADD, lit(Token::INT, "1"));
    let (ty, value) = eval_constant(&e, &table, &TypeTable::empty(), source(), 0).unwrap();
    assert_eq!(ty, Ty::Int(IntTy::Int64));
    assert_eq!(int_of(&value), "43");
}

#[test]
fn unknown_names_are_not_constants() {
    let e = name("missing");
    let err = eval_constant_with_lookup(&e, &no_constants(), source(), 0).unwrap_err();
    assert_eq!(err.kind, DiagnosticKind::Semantic);
    assert_eq!(err.message, "missing is not a constant");
}

#[test]
fn predeclared_booleans_compare() {
    let e = binary(name("true"), Token::NEQ, name("false"));
    let (ty, value) = eval_constant_with_lookup(&e, &no_constants(), source(), 0).unwrap();
    assert_eq!(ty, Ty::Untyped(UntypedTy::Bool));
    assert!(matches!(value, ConstValue::Bool(true)));
}

#[test]
fn comparisons_of_untyped_constants_are_untyped_booleans() {
    let e = binary(lit(Token::INT, "3"), Token::LSS, lit(Token::INT, "5"));
    let (ty, value) = eval_constant_with_lookup(&e, &no_constants(), source(), 0).unwrap();
    assert_eq!(ty, Ty::Untyped(UntypedTy::Bool));
    assert!(matches!(value, ConstValue::Bool(true)));
}

#[test]
fn string_constants_concatenate() {
    let e = binary(lit(Token::STRING, "\"go\""), Token::ADD, lit(Token::STRING, "\"rs\""));
    let (ty, value) = eval_constant_with_lookup(&e, &no_constants(), source(), 0).unwrap();
    assert_eq!(ty, Ty::Untyped(UntypedTy::String));
    match value {
        ConstValue::String(bytes) => assert_eq!(bytes, b"gors".to_vec()),
        _ => panic!("expected a string constant"),
    }
}

#[test]
fn untyped_shift_of_constants_folds() {
    let e = binary(lit(Token::INT, "1"), Token::SHL, lit(Token::INT, "10"));
    let (ty, value) = eval_constant_with_lookup(&e, &no_constants(), source(), 0).unwrap();
    assert_eq!(ty, Ty::Untyped(UntypedTy::Int));
    assert_eq!(int_of(&value), "1024");
}

#[test]
fn min_and_max_pick_among_constants() {
    let lo = call("min", vec![lit(Token::INT, "4"), lit(Token::INT, "-2"), lit(Token::INT, "9")]);
    let (_, value) = eval_constant_with_lookup(&lo, &no_constants(), source(), 0).unwrap();
    assert_eq!(int_of(&value), "-2");
    let hi = call("max", vec![lit(Token::INT, "4"), lit(Token::INT, "-2"), lit(Token::INT, "9")]);
    let (_, value) = eval_constant_with_lookup(&hi, &no_constants(), source(), 0).unwrap();
    assert_eq!(int_of(&value), "9");
}

#[test]
fn conversion_to_a_type_alias_gives_a_typed_constant() {
    let types = TypeTable { entries: vec![TypeAlias { name: "Small".to_string(), ty: Ty::Uint(UintTy::Uint8) }] };
    let e = call("Small", vec![lit(Token::INT, "200")]);
    let (ty, value) = eval_constant(&e, &no_constants(), &types, source(), 0).unwrap();
    assert_eq!(ty, Ty::Uint(UintTy::Uint8));
    assert_eq!(int_of(&value), "200");
}

#[test]
fn conversion_that_overflows_is_rejected() {
    let types = TypeTable { entries: vec![TypeAlias { name: "Small".to_string(), ty: Ty::Uint(UintTy::Uint8) }] };
    let e = call("Small", vec![lit(Token::INT, "256")]);
    assert!(eval_constant(&e, &no_constants(), &types, source(), 0).is_err());
}

#[test]
fn predeclared_type_names_map_to_types() {
    assert_eq!(predeclared_constant_type(&"float64".to_string()), Some(Ty::Float(FloatTy::Float64)));
    assert_eq!(predeclared_constant_type(&"uint8".to_string()), Some(Ty::Uint(UintTy::Uint8)));
    assert_eq!(predeclared_constant_type(&"frobnicate".to_string()), None);
}

#[test]
fn constant_operators_are_checked_against_the_operand_type() {
    assert!(validate_constant_binary_operator(BinaryOp::Add, &Ty::Untyped(UntypedTy::String), source()).is_ok());
    let err = validate_constant_binary_operator(BinaryOp::Sub, &Ty::String, source()).unwrap_err();
    assert_eq!(err.kind, DiagnosticKind::Semantic);
}
