use gors_semantic::constant::ConstValue;
use gors_semantic::constants::ConstantTable;
use gors_semantic::control_targets::{ControlTargetId, ControlTargetKind};
use gors_semantic::function::{FunctionLowerer, LocalConstantSymbol, LocalKind};
use gors_semantic::hir::{DiagnosticKind, LocalId, NodeId, SourceRef};
use gors_semantic::syntax::{SyntaxSource, Token};
use gors_semantic::types::{IntTy, Ty};

fn source() -> SourceRef {
    SourceRef::Node(NodeId { owner: 9, local: 1 })
}

fn at(start: u64) -> SyntaxSource {
    SyntaxSource { start, end: start + 1 }
}

fn lowerer() -> FunctionLowerer {
    FunctionLowerer::new(9, ConstantTable { entries: Vec::new() }, vec![("T".to_string(), Ty::String)])
}

fn alias(lowerer: &FunctionLowerer, name: &str) -> Option<Ty> {
    lowerer.type_aliases.iter().find(|(n, _)| n == name).map(|(_, t)| t.clone())
}

#[test]
fn break_resolves_to_the_innermost_target() {
    let mut f = lowerer();
    let outer = f.begin_control_target(ControlTargetKind::Loop, None).unwrap();
    let inner = f.begin_control_target(ControlTargetKind::BreakOnly, None).unwrap();
    assert_eq!(outer, ControlTargetId(0));
    assert_eq!(inner, ControlTargetId(1));
    assert_eq!(f.resolve_control_target(Token::BREAK, None, source()).unwrap(), inner);
}

#[test]
fn continue_skips_switches_to_reach_the_loop() {
    let mut f = lowerer();
    let outer = f.begin_control_target(ControlTargetKind::Loop, None).unwrap();
    f.begin_control_target(ControlTargetKind::BreakOnly, None).unwrap();
    assert_eq!(f.resolve_control_target(Token::CONTINUE, None, source()).unwrap(), outer);
}

#[test]
fn labels_select_an_outer_target() {
    let mut f = lowerer();
    let outer = f.begin_control_target(ControlTargetKind::Loop, Some("outer".to_string())).unwrap();
    f.begin_control_target(ControlTargetKind::Loop, None).unwrap();
    assert_eq!(f.resolve_control_target(Token::BREAK, Some("outer"), source()).unwrap(), outer);
    let err = f.resolve_control_target(Token::BREAK, Some("nowhere"), source()).unwrap_err();
    assert_eq!(err.kind, DiagnosticKind::Semantic);
}

#[test]
fn continue_to_a_labelled_switch_is_refused() {
    let mut f = lowerer();
    f.begin_control_target(ControlTargetKind::BreakOnly, Some("sw".to_string())).unwrap();
    let err = f.resolve_control_target(Token::CONTINUE, Some("sw"), source()).unwrap_err();
    assert_eq!(err.kind, DiagnosticKind::Semantic);
    assert!(f.resolve_control_target(Token::BREAK, Some("sw"), source()).is_ok());
}

#[test]
fn break_outside_any_target_is_refused() {
    let f = lowerer();
    let err = f.resolve_control_target(Token::BREAK, None, source()).unwrap_err();
    assert_eq!(err.kind, DiagnosticKind::Semantic);
    assert_eq!(err.source, Some(source()));
}

#[test]
fn targets_close_in_lexical_order() {
    let mut f = lowerer();
    let outer = f.begin_control_target(ControlTargetKind::Loop, None).unwrap();
    let inner = f.begin_control_target(ControlTargetKind::Loop, None).unwrap();
    let err = f.end_control_target(outer).unwrap_err();
    assert_eq!(err.kind, DiagnosticKind::Backend);
    let mut g = lowerer();
    let a = g.begin_control_target(ControlTargetKind::Loop, None).unwrap();
    let b = g.begin_control_target(ControlTargetKind::Loop, None).unwrap();
    assert!(g.end_control_target(b).is_ok());
    assert!(g.end_control_target(a).is_ok());
    assert!(g.resolve_control_target(Token::BREAK, None, source()).is_err());
    let _ = inner;
}

#[test]
fn locals_of_a_closed_block_disappear() {
    let mut f = lowerer();
    let x = f.alloc_local(Some("x".to_string()), Ty::Int(IntTy::Int), LocalKind::Variable, at(1)).unwrap();
    f.push_scope();
    let shadow = f.alloc_local(Some("x".to_string()), Ty::String, LocalKind::Variable, at(2)).unwrap();
    assert_ne!(x, shadow);
    assert_eq!(f.lookup_local("x"), Some(shadow));
    assert_eq!(f.lookup_current_local("x"), Some(shadow));
    f.pop_scope();
    assert_eq!(f.lookup_local("x"), Some(x));
    assert_eq!(f.locals.len(), 2);
}

#[test]
fn local_ids_count_up_from_zero() {
    let mut f = lowerer();
    let a = f.alloc_local(Some("a".to_string()), Ty::Bool, LocalKind::Parameter, at(1)).unwrap();
    let b = f.alloc_local(None, Ty::Bool, LocalKind::Variable, at(2)).unwrap();
    assert_eq!(a, LocalId(0));
    assert_eq!(b, LocalId(1));
    assert_eq!(f.lookup_local("b"), None);
}

#[test]
fn a_local_type_is_undone_when_its_block_closes() {
    let mut f = lowerer();
    f.push_scope();
    f.bind_local_type("T".to_string(), Ty::Bool, source()).unwrap();
    f.bind_local_type("U".to_string(), Ty::Int(IntTy::Int8), source()).unwrap();
    assert_eq!(alias(&f, "T"), Some(Ty::Bool));
    assert_eq!(alias(&f, "U"), Some(Ty::Int(IntTy::Int8)));
    f.pop_scope();
    assert_eq!(alias(&f, "T"), Some(Ty::String));
    assert_eq!(alias(&f, "U"), None);
}

#[test]
fn a_type_declared_twice_in_one_block_is_refused() {
    let mut f = lowerer();
    f.bind_local_type("V".to_string(), Ty::Bool, source()).unwrap();
    let err = f.bind_local_type("V".to_string(), Ty::String, source()).unwrap_err();
    assert_eq!(err.kind, DiagnosticKind::Semantic);
    assert_eq!(alias(&f, "V"), Some(Ty::Bool));
}

#[test]
fn local_constants_are_scoped_to_their_block() {
    let mut f = lowerer();
    f.push_scope();
    let constant = LocalConstantSymbol { ty: Ty::Int(IntTy::Int), value: ConstValue::Int("3".to_string()) };
    f.bind_local_constant("k".to_string(), constant, source()).unwrap();
    assert!(f.lookup_local_constant("k").is_some());
    let again = LocalConstantSymbol { ty: Ty::Int(IntTy::Int), value: ConstValue::Int("4".to_string()) };
    assert_eq!(f.bind_local_constant("k".to_string(), again, source()).unwrap_err().kind, DiagnosticKind::Semantic);
    f.pop_scope();
    assert!(f.lookup_local_constant("k").is_none());
}

#[test]
fn nodes_and_local_types_take_fresh_identities() {
    let mut f = lowerer();
    let first = f.alloc_node(at(3)).unwrap();
    let second = f.alloc_node(at(4)).unwrap();
    assert_eq!(first, NodeId { owner: 9, local: 1 });
    assert_eq!(second, NodeId { owner: 9, local: 2 });
    let t0 = f.alloc_local_type_identity().unwrap();
    let t1 = f.alloc_local_type_identity().unwrap();
    assert_eq!(t0.local, 0);
    assert_eq!(t1.local, 1);
}

#[test]
fn a_nested_switch_passes_other_branches_to_the_enclosing_loop() {
    let mut f = lowerer();
    let outer = f.begin_control_target(ControlTargetKind::Loop, Some("outer".to_string())).unwrap();
    let switch = f.begin_control_target(ControlTargetKind::BreakOnly, None).unwrap();
    assert_eq!(f.resolve_control_target(Token::BREAK, None, source()).unwrap(), switch);
    assert_eq!(f.resolve_control_target(Token::CONTINUE, None, source()).unwrap(), outer);
    assert_eq!(f.resolve_control_target(Token::BREAK, Some("outer"), source()).unwrap(), outer);
    assert_eq!(f.resolve_control_target(Token::CONTINUE, Some("outer"), source()).unwrap(), outer);
    assert!(f.resolve_control_target(Token::BREAK, Some("nope"), source()).is_err());
    assert!(f.resolve_control_target(Token::GOTO, None, source()).is_err());
    f.end_control_target(switch).unwrap();
    assert_eq!(f.resolve_control_target(Token::BREAK, None, source()).unwrap(), outer);
}

#[test]
fn closing_a_block_restores_aliases_after_any_bindings() {
    let mut f = lowerer();
    f.bind_local_type("W".to_string(), Ty::Bool, source()).ok();
    let before_t = alias(&f, "T");
    let depth = f.scopes.len();
    f.push_scope();
    f.bind_local_type("T".to_string(), Ty::Bool, source()).unwrap();
    f.alloc_local(Some("x".to_string()), Ty::String, LocalKind::Variable, at(5)).unwrap();
    let constant = LocalConstantSymbol { ty: Ty::Int(IntTy::Int), value: ConstValue::Int("1".to_string()) };
    f.bind_local_constant("k".to_string(), constant, source()).unwrap();
    f.bind_closure("c", gors_semantic::hir::ClosureId(0), source()).unwrap();
    f.bind_local_type("U".to_string(), Ty::Int(IntTy::Int8), source()).unwrap();
    assert_eq!(alias(&f, "T"), Some(Ty::Bool));
    f.pop_scope();
    assert_eq!(alias(&f, "T"), before_t);
    assert_eq!(alias(&f, "U"), None);
    assert_eq!(f.scopes.len(), depth);
    assert_eq!(f.closure_scopes.len(), depth);
    assert_eq!(f.local_constant_scopes.len(), depth);
    assert_eq!(f.type_scope_changes.len(), depth);
}

#[test]
fn redeclarations_name_the_name() {
    let mut f = lowerer();
    f.push_scope();
    f.alloc_local(Some("x".to_string()), Ty::Bool, LocalKind::Variable, at(1)).unwrap();
    let err = f.alloc_local(Some("x".to_string()), Ty::Bool, LocalKind::Variable, at(2)).unwrap_err();
    assert_eq!(err.message, "x redeclared in this block");
    assert_eq!(f.locals.len(), 1);
    let err = f.bind_local_type("x".to_string(), Ty::Bool, source()).unwrap_err();
    assert_eq!(err.message, "x redeclared in this block");
    let constant = LocalConstantSymbol { ty: Ty::Int(IntTy::Int), value: ConstValue::Int("1".to_string()) };
    let err = f.bind_local_constant("x".to_string(), constant, source()).unwrap_err();
    assert_eq!(err.message, "x redeclared in this block");
    let err = f.bind_closure("x", gors_semantic::hir::ClosureId(1), source()).unwrap_err();
    assert_eq!(err.message, "x redeclared in this block");
}

#[test]
fn a_full_node_counter_is_left_unchanged() {
    let mut f = lowerer();
    f.next_node = u32::MAX;
    let before = f.source_plan.len();
    assert_eq!(f.alloc_node(at(1)).unwrap_err().kind, DiagnosticKind::Backend);
    assert_eq!(f.next_node, u32::MAX);
    assert_eq!(f.source_plan.len(), before);
}

#[test]
fn places_have_the_types_of_their_locals() {
    let mut f = lowerer();
    f.push_scope();
    let x = f.alloc_local(Some("x".to_string()), Ty::String, LocalKind::Variable, at(1)).unwrap();
    assert_eq!(f.place_ty(gors_semantic::hir::Place::Local(x)).unwrap(), &Ty::String);
    let err = f.place_ty(gors_semantic::hir::Place::Local(LocalId(7))).unwrap_err();
    assert_eq!(err.kind, DiagnosticKind::Backend);
    assert_eq!(err.message, "invalid local id 7");
    let err = f.place_ty(gors_semantic::hir::Place::Discard).unwrap_err();
    assert_eq!(err.message, "blank identifier unexpectedly required an inferred type");
}
