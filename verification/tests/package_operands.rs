use gors_semantic::constant::ConstValue;
use gors_semantic::constants::{ConstantSymbol, ConstantTable, TypeAlias, TypeTable};
use gors_semantic::hir::{DiagnosticKind, NodeId, SourceRef};
use gors_semantic::package_operands::check_package_operand;
use gors_semantic::syntax::{ExprSyntax, ExprSyntaxKind, IdentSyntax, SyntaxSource, Token};
use gors_semantic::types::{ChannelDir, IntTy, Ty, UntypedTy};

fn source() -> SourceRef {
    SourceRef::Node(NodeId { owner: 5, local: 1 })
}

fn at() -> SyntaxSource {
    SyntaxSource { start: 0, end: 0 }
}

fn expr(kind: ExprSyntaxKind) -> ExprSyntax {
    ExprSyntax { kind, source: at() }
}

fn name(n: &str) -> ExprSyntax {
    expr(ExprSyntaxKind::Ident(IdentSyntax { name: n.to_string(), source: at() }))
}

fn int_lit(s: &str) -> ExprSyntax {
    expr(ExprSyntaxKind::Literal { token: Token::INT, spelling: s.to_string() })
}

fn unary(token: Token, e: ExprSyntax) -> ExprSyntax {
    expr(ExprSyntaxKind::Unary { token, expression: Box::new(e) })
}

fn binary(l: ExprSyntax, token: Token, r: ExprSyntax) -> ExprSyntax {
    expr(ExprSyntaxKind::Binary { left: Box::new(l), token, right: Box::new(r) })
}

fn call(callee: &str, args: Vec<ExprSyntax>) -> ExprSyntax {
    expr(ExprSyntaxKind::Call { callee: Box::new(name(callee)), arguments: args, spread: false })
}

fn tables() -> (ConstantTable, TypeTable, TypeTable) {
    let constants = ConstantTable {
        entries: vec![ConstantSymbol { name: "K".to_string(), ty: Ty::Untyped(UntypedTy::Int), value: ConstValue::Int("4".to_string()) }],
    };
    let variables = TypeTable {
        entries: vec![
            TypeAlias { name: "arr".to_string(), ty: Ty::Array(3, Box::new(Ty::Int(IntTy::Int))) },
            TypeAlias { name: "ch".to_string(), ty: Ty::Channel(ChannelDir::SendReceive, Box::new(Ty::Array(2, Box::new(Ty::Bool)))) },
            TypeAlias { name: "out".to_string(), ty: Ty::Channel(ChannelDir::Send, Box::new(Ty::Bool)) },
        ],
    };
    let types = TypeTable { entries: vec![TypeAlias { name: "Small".to_string(), ty: Ty::Int(IntTy::Int8) }] };
    (constants, variables, types)
}

#[test]
fn constants_and_variables_check_to_their_types() {
    let (c, v, t) = tables();
    let k = check_package_operand(&name("K"), &c, &v, &t, &Vec::new(), source(), None).unwrap();
    assert_eq!(k.ty, Ty::Untyped(UntypedTy::Int));
    assert!(matches!(k.constant, Some(ConstValue::Int(ref s)) if s == "4"));
    let a = check_package_operand(&name("arr"), &c, &v, &t, &Vec::new(), source(), None).unwrap();
    assert_eq!(a.ty, Ty::Array(3, Box::new(Ty::Int(IntTy::Int))));
    assert!(a.constant.is_none());
    assert!(!a.contains_call_or_receive);
    let err = check_package_operand(&name("nowhere"), &c, &v, &t, &Vec::new(), source(), None).unwrap_err();
    assert_eq!(err.message, "nowhere is not a constant");
}

#[test]
fn iota_needs_a_constant_declaration() {
    let (c, v, t) = tables();
    let err = check_package_operand(&name("iota"), &c, &v, &t, &Vec::new(), source(), None).unwrap_err();
    assert_eq!(err.message, "iota is only defined in constant declarations");
    let ok = check_package_operand(&name("iota"), &c, &v, &t, &Vec::new(), source(), Some(7)).unwrap();
    assert!(matches!(ok.constant, Some(ConstValue::Int(ref s)) if s == "7"));
    let shadowed = vec!["iota".to_string()];
    assert!(check_package_operand(&name("iota"), &c, &v, &t, &shadowed, source(), Some(7)).is_err());
}

#[test]
fn receives_are_marked_and_need_a_receivable_channel() {
    let (c, v, t) = tables();
    let r = check_package_operand(&unary(Token::ARROW, name("ch")), &c, &v, &t, &Vec::new(), source(), None).unwrap();
    assert_eq!(r.ty, Ty::Array(2, Box::new(Ty::Bool)));
    assert!(r.contains_call_or_receive);
    let err = check_package_operand(&unary(Token::ARROW, name("out")), &c, &v, &t, &Vec::new(), source(), None).unwrap_err();
    assert_eq!(err.message, "cannot receive from a send-only channel");
    let err = check_package_operand(&unary(Token::ARROW, name("arr")), &c, &v, &t, &Vec::new(), source(), None).unwrap_err();
    assert_eq!(err.message, "receive requires a channel operand");
}

#[test]
fn addresses_and_indirections_check_their_operands() {
    let (c, v, t) = tables();
    let p = check_package_operand(&unary(Token::AND, name("arr")), &c, &v, &t, &Vec::new(), source(), None).unwrap();
    assert_eq!(p.ty, Ty::Pointer(Box::new(Ty::Array(3, Box::new(Ty::Int(IntTy::Int))))));
    let back = check_package_operand(&unary(Token::MUL, unary(Token::AND, name("arr"))), &c, &v, &t, &Vec::new(), source(), None).unwrap();
    assert_eq!(back.ty, Ty::Array(3, Box::new(Ty::Int(IntTy::Int))));
    let err = check_package_operand(&unary(Token::AND, name("K")), &c, &v, &t, &Vec::new(), source(), None).unwrap_err();
    assert_eq!(err.message, "cannot take the address of this expression");
}

#[test]
fn constant_arithmetic_is_evaluated() {
    let (c, v, t) = tables();
    let e = binary(name("K"), Token::MUL, int_lit("3"));
    let r = check_package_operand(&e, &c, &v, &t, &Vec::new(), source(), None).unwrap();
    assert!(matches!(r.constant, Some(ConstValue::Int(ref s)) if s == "12"));
    let cmp = binary(name("arr"), Token::EQL, name("arr"));
    let r = check_package_operand(&cmp, &c, &v, &t, &Vec::new(), source(), None).unwrap();
    assert_eq!(r.ty, Ty::Bool);
    assert!(r.constant.is_none());
}

#[test]
fn conversions_to_named_types_keep_the_constant() {
    let (c, v, t) = tables();
    let r = check_package_operand(&call("Small", vec![int_lit("5")]), &c, &v, &t, &Vec::new(), source(), None).unwrap();
    assert_eq!(r.ty, Ty::Int(IntTy::Int8));
    assert!(matches!(r.constant, Some(ConstValue::Int(ref s)) if s == "5"));
    let err = check_package_operand(&call("Small", vec![]), &c, &v, &t, &Vec::new(), source(), None).unwrap_err();
    assert_eq!(err.message, "a conversion requires exactly one argument");
}

#[test]
fn other_function_calls_are_not_constant() {
    let (c, v, t) = tables();
    let err = check_package_operand(&call("f", vec![]), &c, &v, &t, &Vec::new(), source(), None).unwrap_err();
    assert_eq!(err.kind, DiagnosticKind::Semantic);
    assert_eq!(err.message, "function call makes len/cap non-constant");
    let m = check_package_operand(&call("max", vec![int_lit("2"), name("K")]), &c, &v, &t, &Vec::new(), source(), None).unwrap();
    assert!(matches!(m.constant, Some(ConstValue::Int(ref s)) if s == "4"));
}
