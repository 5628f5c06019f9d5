use gors_semantic::arrays::{array_length, is_scalar_array_element};
use gors_semantic::channels::channel_effects;
use gors_semantic::constant::ConstValue;
use gors_semantic::constants::{ConstantSymbol, ConstantTable};
use gors_semantic::conversions::{constant_index_value, is_nilable_type, slice_runtime_effects};
use gors_semantic::expressions::{assignment_binary_op, common_operand_type, default_expr_type, is_bool};
use gors_semantic::function::{FunctionLowerer, LocalKind};
use gors_semantic::generics::{named_receiver_definition, single_receiver_type, type_inference_mismatch};
use gors_semantic::hir::{
    AssignOp, BinaryOp, ClosureId, DiagnosticKind, Effects, Expr, ExprKind, NodeId, SourceRef, ValueCategory,
};
use gors_semantic::syntax::{
    ExprSyntax, ExprSyntaxKind, FieldListSyntax, FieldSyntax, FunctionHeaderSyntax, IdentSyntax, SyntaxSource, Token,
};
use gors_semantic::types::{FloatTy, IntTy, Ty, UintTy, UntypedTy};

fn at() -> SyntaxSource {
    SyntaxSource { start: 0, end: 0 }
}

fn source() -> SourceRef {
    SourceRef::Node(NodeId { owner: 7, local: 7 })
}

fn ident(n: &str) -> IdentSyntax {
    IdentSyntax { name: n.to_string(), source: at() }
}

fn name(n: &str) -> ExprSyntax {
    ExprSyntax { kind: ExprSyntaxKind::Ident(ident(n)), source: at() }
}

fn lit(s: &str) -> ExprSyntax {
    ExprSyntax { kind: ExprSyntaxKind::Literal { token: Token::INT, spelling: s.to_string() }, source: at() }
}

fn constant(value: ConstValue, ty: Ty) -> Expr {
    Expr { node: 1, kind: ExprKind::Constant(value), ty, category: ValueCategory::Constant, effects: Effects::none(), source: source() }
}

fn blocking() -> Expr {
    let mut effects = Effects::none();
    effects.may_block = true;
    Expr { node: 2, kind: ExprKind::Local(0), ty: Ty::Int(IntTy::Int), category: ValueCategory::Place, effects, source: source() }
}

fn fields(groups: Vec<Vec<&str>>) -> FieldListSyntax {
    FieldListSyntax {
        fields: groups
            .into_iter()
            .map(|names| FieldSyntax {
                names: if names.is_empty() { None } else { Some(names.into_iter().map(ident).collect()) },
                ty: Some(name("int")),
            })
            .collect(),
    }
}

#[test]
fn parameters_are_declared_one_local_per_name() {
    let mut f = FunctionLowerer::new(7, ConstantTable { entries: Vec::new() }, Vec::new());
    let params = fields(vec![vec!["a", "b"], vec![]]);
    let types = [Ty::Int(IntTy::Int), Ty::String, Ty::Bool];
    let ids = f.declare_field_bindings(&params, &types, LocalKind::Parameter).unwrap();
    assert_eq!(ids.len(), 3);
    assert_eq!(f.lookup_local("b"), Some(ids[1]));
    assert_eq!(f.locals[2].ty, Ty::Bool);
    assert_eq!(f.locals[2].name, None);
    assert!(f.declare_field_bindings(&params, &types[..1], LocalKind::Parameter).is_err());
}

#[test]
fn named_results_are_declared_and_blank_results_are_not_bound() {
    let mut f = FunctionLowerer::new(7, ConstantTable { entries: Vec::new() }, Vec::new());
    let results = fields(vec![vec!["n", "_"]]);
    let ids = f.declare_result_bindings(&results, &[Ty::Int(IntTy::Int), Ty::String]).unwrap();
    assert_eq!(ids.len(), 2);
    let n = ids[0].unwrap();
    assert_eq!(f.locals[n.0 as usize].kind, LocalKind::NamedResult);
    assert_eq!(f.lookup_local("n"), Some(n));
    assert_eq!(f.lookup_local("_"), None);
}

#[test]
fn closures_are_scoped_and_hidden_by_locals() {
    let mut f = FunctionLowerer::new(7, ConstantTable { entries: Vec::new() }, Vec::new());
    f.bind_closure("g", ClosureId(4), source()).unwrap();
    assert_eq!(f.lookup_closure("g"), Some(ClosureId(4)));
    f.push_scope();
    f.alloc_local(Some("g".to_string()), Ty::Bool, LocalKind::Variable, at()).unwrap();
    assert_eq!(f.lookup_closure("g"), None);
    f.pop_scope();
    assert_eq!(f.lookup_closure("g"), Some(ClosureId(4)));
    f.alloc_local(Some("h".to_string()), Ty::Bool, LocalKind::Variable, at()).unwrap();
    assert_eq!(f.bind_closure("h", ClosureId(5), source()).unwrap_err().kind, DiagnosticKind::Semantic);
}

#[test]
fn named_references_expand_through_the_aliases() {
    let named = Ty::Named { definition: 9, underlying: Box::new(Ty::Int(IntTy::Int)) };
    let f = FunctionLowerer::new(7, ConstantTable { entries: Vec::new() }, vec![("N".to_string(), named.clone())]);
    assert_eq!(f.expand_named_ref(&Ty::NamedRef { definition: 9 }).unwrap(), named);
    assert_eq!(f.expand_named_ref(&Ty::String).unwrap(), Ty::String);
    assert_eq!(f.expand_named_ref(&Ty::NamedRef { definition: 10 }).unwrap_err().kind, DiagnosticKind::Backend);
}

#[test]
fn array_lengths_are_integer_constants_within_the_limit() {
    let table = ConstantTable {
        entries: vec![ConstantSymbol { name: "N".to_string(), ty: Ty::Untyped(UntypedTy::Int), value: ConstValue::Int("4".to_string()) }],
    };
    let doubled = ExprSyntax {
        kind: ExprSyntaxKind::Binary { left: Box::new(name("N")), token: Token::MUL, right: Box::new(lit("2")) },
        source: at(),
    };
    assert_eq!(array_length(&doubled, &table, source()).unwrap(), 8);
    let negative = ExprSyntax { kind: ExprSyntaxKind::Unary { token: Token::SUB, expression: Box::new(lit("1")) }, source: at() };
    assert_eq!(array_length(&negative, &table, source()).unwrap_err().kind, DiagnosticKind::Semantic);
    assert_eq!(array_length(&lit("2000000"), &table, source()).unwrap_err().kind, DiagnosticKind::Unsupported);
    assert_eq!(
        array_length(&lit("2000000"), &table, source()).unwrap_err().message,
        "array length 2000000 exceeds the current implementation limit of 1048576"
    );
    assert!(is_scalar_array_element(&Ty::Uint(UintTy::Uint8)));
    assert!(!is_scalar_array_element(&Ty::Int(IntTy::Int8)));
}

#[test]
fn constant_indices_fit_i64() {
    assert_eq!(constant_index_value(&constant(ConstValue::Int("-3".to_string()), Ty::Int(IntTy::Int))), Some(-3));
    assert_eq!(constant_index_value(&constant(ConstValue::Int("9223372036854775808".to_string()), Ty::Untyped(UntypedTy::Int))), None);
    assert_eq!(constant_index_value(&constant(ConstValue::Int("1_000".to_string()), Ty::Untyped(UntypedTy::Int))), None);
    assert_eq!(constant_index_value(&blocking()), None);
}

#[test]
fn runtime_effects_join_operands() {
    let a = blocking();
    let slice = slice_runtime_effects(&[&a], false, true, true);
    assert!(slice.may_call && slice.may_allocate && slice.may_panic && slice.may_block && !slice.may_read);
    let channel = channel_effects(&[&a], true, false, true, false);
    assert!(channel.may_call && channel.may_write && channel.may_block && !channel.may_panic);
}

#[test]
fn operand_types_and_defaults() {
    assert_eq!(common_operand_type(&Ty::Untyped(UntypedTy::Int), &Ty::Float(FloatTy::Float32)), Some(Ty::Float(FloatTy::Float32)));
    assert_eq!(common_operand_type(&Ty::Untyped(UntypedTy::Rune), &Ty::Untyped(UntypedTy::Rune)), Some(Ty::Int(IntTy::Int32)));
    assert_eq!(common_operand_type(&Ty::String, &Ty::Bool), None);
    assert!(is_bool(&Ty::Untyped(UntypedTy::Bool)));
    assert!(!is_bool(&Ty::String));
    assert_eq!(assignment_binary_op(AssignOp::Shl), BinaryOp::Shl);
    let e = default_expr_type(constant(ConstValue::Int("5".to_string()), Ty::Untyped(UntypedTy::Int)), source()).unwrap();
    assert_eq!(e.ty, Ty::Int(IntTy::Int));
    assert!(is_nilable_type(&Ty::Pointer(Box::new(Ty::Bool))));
}

#[test]
fn receivers_and_inference_diagnostics() {
    let header = FunctionHeaderSyntax {
        name: ident("M"),
        receiver: Some(fields(vec![vec!["r"]])),
        type_parameters: None,
        params: FieldListSyntax { fields: Vec::new() },
        results: None,
    };
    assert!(matches!(&single_receiver_type(&header, source()).unwrap().kind, ExprSyntaxKind::Ident(i) if i.name == "int"));
    let none = FunctionHeaderSyntax { receiver: None, ..header };
    assert!(matches!(single_receiver_type(&none, source()), Err(d) if d.kind == DiagnosticKind::Backend));
    let named = Ty::Pointer(Box::new(Ty::Named { definition: 3, underlying: Box::new(Ty::Bool) }));
    assert_eq!(named_receiver_definition(&named), Some(3));
    assert_eq!(named_receiver_definition(&Ty::Bool), None);
    let d = type_inference_mismatch(&name("T"), &Ty::Bool, source());
    assert_eq!(d.message, "argument type does not match the generic parameter pattern");
}

#[test]
fn a_parameter_name_declared_twice_is_refused() {
    let mut f = FunctionLowerer::new(7, ConstantTable { entries: Vec::new() }, Vec::new());
    let params = fields(vec![vec!["a"], vec!["_", "a"]]);
    let types = [Ty::Int(IntTy::Int), Ty::String, Ty::Bool];
    assert!(f.declare_field_bindings(&params, &types, LocalKind::Parameter).is_err());
    let mut g = FunctionLowerer::new(7, ConstantTable { entries: Vec::new() }, Vec::new());
    let blanks = fields(vec![vec!["_", "_"]]);
    assert_eq!(g.declare_field_bindings(&blanks, &types, LocalKind::Parameter).unwrap().len(), 2);
}

#[test]
fn result_names_must_be_distinct_and_typed() {
    let mut f = FunctionLowerer::new(7, ConstantTable { entries: Vec::new() }, Vec::new());
    let results = fields(vec![vec!["r", "r"]]);
    assert!(f.declare_result_bindings(&results, &[Ty::Int(IntTy::Int), Ty::Int(IntTy::Int)]).is_err());
    let mut g = FunctionLowerer::new(7, ConstantTable { entries: Vec::new() }, Vec::new());
    let unnamed = fields(vec![vec![], vec![]]);
    let ids = g.declare_result_bindings(&unnamed, &[Ty::Int(IntTy::Int), Ty::String]).unwrap();
    assert_eq!(ids, vec![None, None]);
    assert!(g.declare_result_bindings(&unnamed, &[Ty::Int(IntTy::Int)]).is_err());
}
