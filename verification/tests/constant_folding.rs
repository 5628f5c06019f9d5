use gors_semantic::constant::ConstValue;
use gors_semantic::constant_ops::{
    constant_shift_integer_operand, describe_constant, fold_constant_binary, fold_constant_unary,
    fold_untyped_constant_shift,
};
use gors_semantic::exact::ExactNumber;
use gors_semantic::hir::{BinaryOp, DiagnosticKind, NodeId, SourceRef, UnaryOp};
use gors_semantic::literals::{parse_go_integer, parse_go_string};
use gors_semantic::types::{IntTy, Ty, UintTy};

fn source() -> SourceRef {
    SourceRef::Node(NodeId { owner: 2, local: 7 })
}

fn integer(s: &str) -> ConstValue {
    ConstValue::Int(s.to_string())
}

fn spelling(value: &ConstValue) -> String {
    match value {
        ConstValue::Int(s) => s.clone(),
        ConstValue::Float(x) => x.to_spelling(),
        _ => panic!("not a number"),
    }
}

#[test]
fn integer_folding_is_exact_beyond_machine_words() {
    let r = fold_constant_binary(BinaryOp::Mul, &integer("18446744073709551616"), &integer("3"), source()).unwrap().unwrap();
    assert_eq!(spelling(&r), "55340232221128654848");
}

#[test]
fn integer_remainder_follows_truncated_division() {
    let r = fold_constant_binary(BinaryOp::Rem, &integer("-7"), &integer("3"), source()).unwrap().unwrap();
    assert_eq!(spelling(&r), "-1");
}

#[test]
fn and_not_clears_the_right_bits() {
    let r = fold_constant_binary(BinaryOp::AndNot, &integer("15"), &integer("5"), source()).unwrap().unwrap();
    assert_eq!(spelling(&r), "10");
}

#[test]
fn integer_comparison_folds_to_booleans() {
    let r = fold_constant_binary(BinaryOp::GreaterEqual, &integer("2"), &integer("2"), source()).unwrap().unwrap();
    assert!(matches!(r, ConstValue::Bool(true)));
}

#[test]
fn integer_division_by_zero_fails() {
    let err = fold_constant_binary(BinaryOp::Div, &integer("1"), &integer("0"), source()).unwrap_err();
    assert_eq!(err.kind, DiagnosticKind::Semantic);
}

#[test]
fn real_division_is_exact() {
    let one = ConstValue::Float(ExactNumber::from_spelling("1.0").unwrap());
    let r = fold_constant_binary(BinaryOp::Div, &one, &integer("3"), source()).unwrap().unwrap();
    assert_eq!(spelling(&r), "1/3");
}

#[test]
fn string_comparison_is_bytewise() {
    let a = ConstValue::String(b"abc".to_vec());
    let b = ConstValue::String(b"abd".to_vec());
    let r = fold_constant_binary(BinaryOp::Less, &a, &b, source()).unwrap().unwrap();
    assert!(matches!(r, ConstValue::Bool(true)));
}

#[test]
fn mixed_booleans_and_numbers_do_not_fold() {
    let r = fold_constant_binary(BinaryOp::Add, &ConstValue::Bool(true), &integer("1"), source()).unwrap();
    assert!(r.is_none());
}

#[test]
fn negation_of_an_integer() {
    let r = fold_constant_unary(UnaryOp::Negative, &integer("5"), &Ty::Int(IntTy::Int), source()).unwrap().unwrap();
    assert_eq!(spelling(&r), "-5");
}

#[test]
fn bitwise_complement_of_unsigned_constant_is_within_its_width() {
    let r = fold_constant_unary(UnaryOp::BitNot, &integer("0"), &Ty::Uint(UintTy::Uint8), source()).unwrap().unwrap();
    assert_eq!(spelling(&r), "255");
}

#[test]
fn logical_not_of_a_boolean() {
    let r = fold_constant_unary(UnaryOp::Not, &ConstValue::Bool(false), &Ty::Bool, source()).unwrap().unwrap();
    assert!(matches!(r, ConstValue::Bool(true)));
}

#[test]
fn constants_are_described_for_diagnostics() {
    assert_eq!(describe_constant(&ConstValue::Bool(true)), "true");
    assert_eq!(describe_constant(&integer("-12")), "-12");
}

#[test]
fn integral_real_is_an_integer_shift_operand() {
    let two = ConstValue::Float(ExactNumber::from_spelling("2.0").unwrap());
    let r = constant_shift_integer_operand(&two, "shift count", source()).unwrap();
    assert_eq!(spelling(&r), "2");
}

#[test]
fn fractional_shift_operand_names_its_role() {
    let half = ConstValue::Float(ExactNumber::from_spelling("0.5").unwrap());
    let err = constant_shift_integer_operand(&half, "shift count", source()).unwrap_err();
    assert_eq!(err.kind, DiagnosticKind::Semantic);
    assert!(err.message.starts_with("invalid operation: shift count "));
    assert!(err.message.ends_with(" must be an integer constant"));
    assert_eq!(err.source, Some(source()));
}

#[test]
fn untyped_shift_folds_after_making_operands_integers() {
    let eight = ConstValue::Float(ExactNumber::from_spelling("8.0").unwrap());
    let r = fold_untyped_constant_shift(BinaryOp::Shr, &eight, &integer("2"), source()).unwrap();
    assert_eq!(spelling(&r), "2");
}

#[test]
fn go_integer_literals_read_in_every_base() {
    assert_eq!(parse_go_integer("0x_FF").as_deref(), Some("255"));
    assert_eq!(parse_go_integer("0b1010").as_deref(), Some("10"));
    assert_eq!(parse_go_integer("0o17").as_deref(), Some("15"));
    assert_eq!(parse_go_integer("017").as_deref(), Some("15"));
    assert_eq!(parse_go_integer("1_000").as_deref(), Some("1000"));
    assert_eq!(parse_go_integer("0x").as_deref(), Some("0"));
    assert_eq!(parse_go_integer("0b102"), None);
}

#[test]
fn go_string_literals_decode_escapes() {
    assert_eq!(parse_go_string(r#""a\tb\x41""#), Some(b"a\tbA".to_vec()));
    assert_eq!(parse_go_string("`raw\\n`"), Some(b"raw\\n".to_vec()));
    assert_eq!(parse_go_string(r#""\u00e4""#), Some("ä".as_bytes().to_vec()));
    assert_eq!(parse_go_string(r#""unterminated"#), None);
}
