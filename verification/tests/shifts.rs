use gors_semantic::constant::ConstValue;
use gors_semantic::exact::ExactNumber;
use gors_semantic::hir::{BinaryOp, DiagnosticKind, Effects, Expr, ExprKind, NodeId, SourceRef, ValueCategory};
use gors_semantic::shifts::{lower_shift_expression, prepare_shift_count, replace_constant};
use gors_semantic::types::{IntTy, Ty, UintTy, UntypedTy};

fn source() -> SourceRef {
    SourceRef::Node(NodeId { owner: 5, local: 5 })
}

fn constant(value: ConstValue, ty: Ty) -> Expr {
    Expr { node: 1, kind: ExprKind::Constant(value), ty, category: ValueCategory::Constant, effects: Effects::none(), source: source() }
}

fn local(ty: Ty) -> Expr {
    let mut effects = Effects::none();
    effects.may_read = true;
    Expr { node: 2, kind: ExprKind::Local(0), ty, category: ValueCategory::Place, effects, source: source() }
}

fn integer(s: &str) -> ConstValue {
    ConstValue::Int(s.to_string())
}

fn int_value(e: &Expr) -> String {
    match &e.kind {
        ExprKind::Constant(ConstValue::Int(s)) | ExprKind::GlobalConstant(_, ConstValue::Int(s)) => s.clone(),
        _ => panic!("not an integer constant"),
    }
}

#[test]
fn replacing_a_constant_keeps_the_rest() {
    let mut e = constant(integer("1"), Ty::Int(IntTy::Int));
    replace_constant(&mut e, integer("2")).unwrap();
    assert_eq!(int_value(&e), "2");
    assert_eq!(e.ty, Ty::Int(IntTy::Int));
    let mut l = local(Ty::Int(IntTy::Int));
    assert_eq!(replace_constant(&mut l, integer("2")).unwrap_err().kind, DiagnosticKind::Backend);
}

#[test]
fn untyped_constant_count_becomes_uint() {
    let mut count = constant(ConstValue::Float(ExactNumber::from_spelling("3.0").unwrap()), Ty::Untyped(UntypedTy::Float));
    prepare_shift_count(&mut count, source()).unwrap();
    assert_eq!(count.ty, Ty::Uint(UintTy::Uint));
    assert_eq!(int_value(&count), "3");
}

#[test]
fn negative_constant_count_is_refused() {
    let mut count = constant(integer("-1"), Ty::Untyped(UntypedTy::Int));
    let err = prepare_shift_count(&mut count, source()).unwrap_err();
    assert_eq!(err.kind, DiagnosticKind::Semantic);
    assert_eq!(err.message, "shift count must be a non-negative integer");
}

#[test]
fn fractional_constant_count_is_refused() {
    let mut count = constant(ConstValue::Float(ExactNumber::from_spelling("1.5").unwrap()), Ty::Untyped(UntypedTy::Float));
    let err = prepare_shift_count(&mut count, source()).unwrap_err();
    assert_eq!(err.kind, DiagnosticKind::Semantic);
    assert!(err.message.starts_with("invalid operation: shift count"));
}

#[test]
fn untyped_count_beyond_uint_is_refused() {
    let mut count = constant(integer("18446744073709551616"), Ty::Untyped(UntypedTy::Int));
    assert_eq!(prepare_shift_count(&mut count, source()).unwrap_err().kind, DiagnosticKind::Semantic);
}

#[test]
fn typed_counts_must_be_integers() {
    let mut count = local(Ty::String);
    assert_eq!(prepare_shift_count(&mut count, source()).unwrap_err().kind, DiagnosticKind::Semantic);
    let mut ok = local(Ty::Int(IntTy::Int32));
    prepare_shift_count(&mut ok, source()).unwrap();
    assert_eq!(ok.ty, Ty::Int(IntTy::Int32));
}

#[test]
fn constant_shift_folds() {
    let left = constant(integer("1"), Ty::Untyped(UntypedTy::Int));
    let right = constant(integer("5"), Ty::Untyped(UntypedTy::Int));
    let e = lower_shift_expression(BinaryOp::Shl, left, right, 40, source(), None).unwrap();
    assert_eq!(e.node, 40);
    assert_eq!(e.ty, Ty::Untyped(UntypedTy::Int));
    assert_eq!(int_value(&e), "32");
}

#[test]
fn constant_shift_takes_the_expected_type() {
    let left = constant(integer("256"), Ty::Untyped(UntypedTy::Int));
    let right = constant(integer("4"), Ty::Untyped(UntypedTy::Int));
    let e = lower_shift_expression(BinaryOp::Shr, left, right, 41, source(), Some(&Ty::Uint(UintTy::Uint8))).unwrap();
    assert_eq!(e.ty, Ty::Uint(UintTy::Uint8));
    assert_eq!(int_value(&e), "16");
}

#[test]
fn constant_shift_that_overflows_the_expected_type_is_refused() {
    let left = constant(integer("1"), Ty::Untyped(UntypedTy::Int));
    let right = constant(integer("8"), Ty::Untyped(UntypedTy::Int));
    assert!(lower_shift_expression(BinaryOp::Shl, left, right, 42, source(), Some(&Ty::Uint(UintTy::Uint8))).is_err());
}

#[test]
fn shift_by_a_variable_stays_a_runtime_operation() {
    let left = constant(integer("1"), Ty::Untyped(UntypedTy::Int));
    let right = local(Ty::Int(IntTy::Int));
    let e = lower_shift_expression(BinaryOp::Shl, left, right, 43, source(), Some(&Ty::Int(IntTy::Int64))).unwrap();
    assert_eq!(e.ty, Ty::Int(IntTy::Int64));
    match &e.kind {
        ExprKind::Binary { op, left, .. } => {
            assert_eq!(*op, BinaryOp::Shl);
            assert_eq!(left.ty, Ty::Int(IntTy::Int64));
        },
        _ => panic!("expected a binary operation"),
    }
    assert!(e.effects.may_panic);
    assert!(e.effects.may_read);
}

#[test]
fn shift_of_an_untyped_operand_into_a_non_integer_context_is_refused() {
    let left = constant(integer("1"), Ty::Untyped(UntypedTy::Int));
    let right = local(Ty::Uint(UintTy::Uint));
    let err = lower_shift_expression(BinaryOp::Shl, left, right, 44, source(), Some(&Ty::String)).unwrap_err();
    assert_eq!(err.kind, DiagnosticKind::Semantic);
}

#[test]
fn shift_of_a_string_is_refused() {
    let left = local(Ty::String);
    let right = constant(integer("1"), Ty::Untyped(UntypedTy::Int));
    assert_eq!(lower_shift_expression(BinaryOp::Shl, left, right, 45, source(), None).unwrap_err().kind, DiagnosticKind::Semantic);
}
