use gors_semantic::constant::ConstValue;
use gors_semantic::constants::ConstantTable;
use gors_semantic::function::FunctionLowerer;
use gors_semantic::hir::{Builtin, Callee, DiagnosticKind, Effects, Expr, ExprKind, NodeId, SourceRef, ValueCategory};
use gors_semantic::syntax::SyntaxSource;
use gors_semantic::types::{IntTy, Ty, UintTy, UntypedTy};

fn source() -> SourceRef {
    SourceRef::Node(NodeId { owner: 6, local: 3 })
}

fn at() -> SyntaxSource {
    SyntaxSource { start: 2, end: 3 }
}

fn lowerer() -> FunctionLowerer {
    FunctionLowerer::new(6, ConstantTable { entries: Vec::new() }, Vec::new())
}

fn local(node: u64, ty: Ty) -> Expr {
    let mut effects = Effects::none();
    effects.may_read = true;
    Expr { node, kind: ExprKind::Local(node), ty, category: ValueCategory::Place, effects, source: source() }
}

fn constant(value: ConstValue, ty: Ty) -> Expr {
    Expr { node: 9, kind: ExprKind::Constant(value), ty, category: ValueCategory::Constant, effects: Effects::none(), source: source() }
}

fn callee(e: &Expr) -> Option<Builtin> {
    match &e.kind {
        ExprKind::Call { callee: Callee::Builtin(b), .. } => Some(*b),
        _ => None,
    }
}

#[test]
fn integers_convert_to_strings_by_code_point() {
    let mut f = lowerer();
    let e = f.lower_conversion_call(Ty::String, vec![local(1, Ty::Int(IntTy::Int))], false, at(), 20, source(), None).unwrap();
    assert_eq!(callee(&e), Some(Builtin::StringFromRune));
    assert_eq!(e.ty, Ty::String);
}

#[test]
fn strings_convert_to_byte_slices_by_appending() {
    let mut f = lowerer();
    let before = f.next_node;
    let bytes = Ty::Slice(Box::new(Ty::Uint(UintTy::Uint8)));
    let e = f.lower_conversion_call(bytes.clone(), vec![local(1, Ty::String)], false, at(), 21, source(), None).unwrap();
    assert_eq!(callee(&e), Some(Builtin::SliceU8AppendString));
    assert_eq!(e.ty, bytes);
    assert_eq!(f.next_node, before + 1);
    let back = f.lower_conversion_call(Ty::String, vec![local(2, bytes)], false, at(), 22, source(), None).unwrap();
    assert_eq!(callee(&back), Some(Builtin::StringFromSliceU8));
}

#[test]
fn representable_constants_fold() {
    let mut f = lowerer();
    let e = f
        .lower_conversion_call(Ty::Int(IntTy::Int8), vec![constant(ConstValue::Int("5".to_string()), Ty::Untyped(UntypedTy::Int))], false, at(), 23, source(), None)
        .unwrap();
    assert_eq!(e.ty, Ty::Int(IntTy::Int8));
    assert!(matches!(e.kind, ExprKind::Constant(ConstValue::Int(ref s)) if s == "5"));
}

#[test]
fn numeric_conversions_keep_the_value() {
    let mut f = lowerer();
    let e = f.lower_conversion_call(Ty::Int(IntTy::Int64), vec![local(1, Ty::Int(IntTy::Int8))], false, at(), 24, source(), None).unwrap();
    assert!(matches!(e.kind, ExprKind::Conversion { .. }));
    assert_eq!(e.ty, Ty::Int(IntTy::Int64));
}

#[test]
fn malformed_and_unsupported_conversions_are_refused() {
    let mut f = lowerer();
    let err = f.lower_conversion_call(Ty::String, vec![local(1, Ty::String)], true, at(), 25, source(), None).unwrap_err();
    assert_eq!(err.message, "conversions do not accept ...");
    let err = f.lower_conversion_call(Ty::String, vec![], false, at(), 25, source(), None).unwrap_err();
    assert_eq!(err.message, "a conversion requires exactly one argument");
    let err = f.lower_conversion_call(Ty::Int(IntTy::Int), vec![local(1, Ty::String)], false, at(), 25, source(), None).unwrap_err();
    assert_eq!(err.kind, DiagnosticKind::Unsupported);
}
