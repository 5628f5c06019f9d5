use gors_semantic::constant::ConstValue;
use gors_semantic::constants::ConstantTable;
use gors_semantic::exact::ExactNumber;
use gors_semantic::function::FunctionLowerer;
use gors_semantic::hir::{BinaryOp, DiagnosticKind, Effects, Expr, ExprKind, NodeId, SourceRef, UnaryOp, ValueCategory};
use gors_semantic::numeric_builtins::constant_component;
use gors_semantic::types::{ComplexTy, FloatTy, IntTy, Ty, UntypedTy};

fn source() -> SourceRef {
    SourceRef::Node(NodeId { owner: 6, local: 6 })
}

fn lowerer() -> FunctionLowerer {
    FunctionLowerer::new(6, ConstantTable { entries: Vec::new() }, Vec::new())
}

fn constant(value: ConstValue, ty: Ty) -> Expr {
    Expr { node: 1, kind: ExprKind::Constant(value), ty, category: ValueCategory::Constant, effects: Effects::none(), source: source() }
}

fn integer(s: &str) -> Expr {
    constant(ConstValue::Int(s.to_string()), Ty::Untyped(UntypedTy::Int))
}

fn float(s: &str) -> Expr {
    constant(ConstValue::Float(ExactNumber::from_spelling(s).unwrap()), Ty::Untyped(UntypedTy::Float))
}

fn variable(ty: Ty, may_panic: bool) -> Expr {
    let mut effects = Effects::none();
    effects.may_read = true;
    effects.may_panic = may_panic;
    Expr { node: 2, kind: ExprKind::Local(0), ty, category: ValueCategory::Place, effects, source: source() }
}

fn int_value(e: &Expr) -> String {
    match &e.kind {
        ExprKind::Constant(ConstValue::Int(s)) => s.clone(),
        _ => panic!("not an integer constant"),
    }
}

#[test]
fn constant_min_and_max_fold() {
    let f = lowerer();
    let lo = f.lower_min_max("min", vec![integer("3"), integer("-8"), integer("5")], 10, source(), None).unwrap();
    assert_eq!(int_value(&lo), "-8");
    assert_eq!(lo.ty, Ty::Untyped(UntypedTy::Int));
    let hi = f.lower_min_max("max", vec![integer("3"), integer("-8"), integer("5")], 11, source(), None).unwrap();
    assert_eq!(int_value(&hi), "5");
    assert_eq!(hi.node, 11);
}

#[test]
fn min_needs_an_operand() {
    let err = lowerer().lower_min_max("min", Vec::new(), 1, source(), None).unwrap_err();
    assert_eq!(err.kind, DiagnosticKind::Semantic);
    assert_eq!(err.message, "call to min requires at least one argument");
}

#[test]
fn min_of_booleans_is_refused() {
    let t = constant(ConstValue::Bool(true), Ty::Untyped(UntypedTy::Bool));
    let err = lowerer().lower_min_max("min", vec![t], 1, source(), None).unwrap_err();
    assert_eq!(err.kind, DiagnosticKind::Semantic);
    assert_eq!(err.message, "min requires ordered numeric arguments");
}

#[test]
fn min_of_mismatched_types_is_refused() {
    let a = variable(Ty::Int(IntTy::Int), false);
    let b = variable(Ty::String, false);
    assert_eq!(lowerer().lower_min_max("max", vec![a, b], 1, source(), None).unwrap_err().kind, DiagnosticKind::Semantic);
}

#[test]
fn runtime_min_chains_left_to_right() {
    let a = variable(Ty::Int(IntTy::Int), false);
    let b = integer("4");
    let c = variable(Ty::Int(IntTy::Int), true);
    let e = lowerer().lower_min_max("min", vec![a, b, c], 12, source(), None).unwrap();
    assert_eq!(e.ty, Ty::Int(IntTy::Int));
    assert!(e.effects.may_panic && e.effects.may_read);
    match &e.kind {
        ExprKind::Binary { op, left, .. } => {
            assert_eq!(*op, BinaryOp::Min);
            assert!(matches!(left.kind, ExprKind::Binary { op: BinaryOp::Min, .. }));
        },
        _ => panic!("expected a chain of minimums"),
    }
}

#[test]
fn runtime_max_of_one_operand_is_that_operand() {
    let e = lowerer().lower_min_max("max", vec![variable(Ty::Float(FloatTy::Float64), false)], 13, source(), None).unwrap();
    assert!(matches!(e.kind, ExprKind::Unary { op: UnaryOp::Positive, .. }));
}

#[test]
fn runtime_string_min_is_unsupported() {
    let e = lowerer().lower_min_max("min", vec![variable(Ty::String, false)], 14, source(), None).unwrap_err();
    assert_eq!(e.kind, DiagnosticKind::Unsupported);
}

#[test]
fn constant_complex_numbers_fold() {
    let e = lowerer().lower_complex(integer("1"), float("0.5"), 20, source(), None).unwrap();
    assert_eq!(e.ty, Ty::Untyped(UntypedTy::Complex));
    match &e.kind {
        ExprKind::Constant(ConstValue::Complex { real: re, imag: im }) => {
            assert_eq!(re.to_spelling(), "1");
            assert_eq!(im.to_spelling(), "1/2");
        },
        _ => panic!("expected a complex constant"),
    }
}

#[test]
fn runtime_complex_converts_its_parts_to_float64() {
    let e = lowerer().lower_complex(variable(Ty::Float(FloatTy::Float64), false), integer("2"), 21, source(), None).unwrap();
    assert_eq!(e.ty, Ty::Complex(ComplexTy::Complex128));
    match &e.kind {
        ExprKind::Binary { op, right, .. } => {
            assert_eq!(*op, BinaryOp::Complex);
            assert_eq!(right.ty, Ty::Float(FloatTy::Float64));
        },
        _ => panic!("expected a runtime complex"),
    }
}

#[test]
fn complex_of_strings_is_refused() {
    let s = constant(ConstValue::String(b"x".to_vec()), Ty::Untyped(UntypedTy::String));
    let t = constant(ConstValue::String(b"y".to_vec()), Ty::Untyped(UntypedTy::String));
    assert_eq!(lowerer().lower_complex(s, t, 22, source(), None).unwrap_err().kind, DiagnosticKind::Semantic);
}

#[test]
fn real_and_imag_of_constants() {
    let f = lowerer();
    let z = f.lower_complex(integer("3"), integer("4"), 30, source(), None).unwrap();
    let w = f.lower_complex(integer("3"), integer("4"), 31, source(), None).unwrap();
    let re = f.lower_complex_component("real", z, 32, source(), None).unwrap();
    let im = f.lower_complex_component("imag", w, 33, source(), None).unwrap();
    assert_eq!(re.ty, Ty::Untyped(UntypedTy::Float));
    match (&re.kind, &im.kind) {
        (ExprKind::Constant(ConstValue::Float(a)), ExprKind::Constant(ConstValue::Float(b))) => {
            assert_eq!(a.to_spelling(), "3");
            assert_eq!(b.to_spelling(), "4");
        },
        _ => panic!("expected float constants"),
    }
}

#[test]
fn imag_of_a_real_constant_is_zero() {
    let e = lowerer().lower_complex_component("imag", integer("7"), 34, source(), None);
    assert_eq!(e.unwrap_err().kind, DiagnosticKind::Semantic);
    let c = constant(ConstValue::Int("7".to_string()), Ty::Untyped(UntypedTy::Complex));
    let e = lowerer().lower_complex_component("imag", c, 35, source(), None).unwrap();
    match &e.kind {
        ExprKind::Constant(ConstValue::Float(x)) => assert_eq!(x.to_spelling(), "0"),
        _ => panic!("expected a float constant"),
    }
}

#[test]
fn real_of_a_runtime_complex_is_a_component_selection() {
    let v = variable(Ty::Complex(ComplexTy::Complex64), false);
    let e = lowerer().lower_complex_component("real", v, 36, source(), None).unwrap();
    assert_eq!(e.ty, Ty::Float(FloatTy::Float32));
    assert!(matches!(e.kind, ExprKind::Unary { op: UnaryOp::Real, .. }));
}

#[test]
fn numeric_builtins_check_arity_and_spread() {
    let f = lowerer();
    assert_eq!(f.lower_numeric_builtin_call("min", vec![integer("1")], true, 1, source(), None).unwrap_err().message, "... is not valid in a call to min");
    assert_eq!(f.lower_numeric_builtin_call("complex", vec![integer("1")], false, 1, source(), None).unwrap_err().kind, DiagnosticKind::Semantic);
    assert_eq!(f.lower_numeric_builtin_call("real", Vec::new(), false, 1, source(), None).unwrap_err().message, "call to real requires exactly one argument");
    assert_eq!(f.lower_numeric_builtin_call("abs", vec![integer("1")], false, 1, source(), None).unwrap_err().kind, DiagnosticKind::Backend);
    let e = f.lower_numeric_builtin_call("max", vec![integer("1"), integer("2")], false, 50, source(), Some(&Ty::Int(IntTy::Int64))).unwrap();
    assert_eq!(e.ty, Ty::Int(IntTy::Int64));
    assert_eq!(int_value(&e), "2");
}

#[test]
fn constant_components_read_exact_values() {
    assert_eq!(constant_component(&float("2.5")).map(|x| x.to_spelling()), Some("5/2".to_string()));
    assert!(constant_component(&variable(Ty::Int(IntTy::Int), false)).is_none());
}

fn text(s: &str) -> Expr {
    constant(ConstValue::String(s.as_bytes().to_vec()), Ty::Untyped(UntypedTy::String))
}

#[test]
fn constant_string_min_and_max_compare_bytes() {
    let f = lowerer();
    let lo = f.lower_min_max("min", vec![text("pear"), text("apple"), text("fig")], 3, source(), None).unwrap();
    assert!(matches!(&lo.kind, ExprKind::Constant(ConstValue::String(b)) if b.as_slice() == b"apple"));
    let hi = f.lower_min_max("max", vec![text("pear"), text("apple"), text("fig")], 3, source(), None).unwrap();
    assert!(matches!(&hi.kind, ExprKind::Constant(ConstValue::String(b)) if b.as_slice() == b"pear"));
}

#[test]
fn constant_min_over_an_integer_and_a_float_is_a_float() {
    let e = lowerer().lower_min_max("min", vec![integer("2"), float("1.5")], 3, source(), None).unwrap();
    assert!(matches!(&e.kind, ExprKind::Constant(ConstValue::Float(_))));
}
