use gors_semantic::constant::ConstValue;
use gors_semantic::constants::ConstantTable;
use gors_semantic::function::FunctionLowerer;
use gors_semantic::hir::{
    AssignOp, AssignTarget, AssignTargetKind, BinaryOp, Builtin, Callee, DiagnosticKind, Effects, Expr, ExprKind,
    LocalId, NodeId, SourceRef, StmtKind, ValueCategory,
};
use gors_semantic::literals::i64_spelling;
use gors_semantic::pointers::pointer_assignment_operands;
use gors_semantic::syntax::{ExprSyntax, ExprSyntaxKind, IdentSyntax, SyntaxSource, Token};
use gors_semantic::types::{ChannelDir, IntTy, Ty, UntypedTy};

fn source() -> SourceRef {
    SourceRef::Node(NodeId { owner: 3, local: 9 })
}

fn lowerer() -> FunctionLowerer {
    FunctionLowerer::new(3, ConstantTable { entries: Vec::new() }, Vec::new())
}

fn variable(node: u64, ty: Ty, may_panic: bool) -> Expr {
    let mut effects = Effects::none();
    effects.may_read = true;
    effects.may_panic = may_panic;
    Expr { node, kind: ExprKind::Local(node), ty, category: ValueCategory::Place, effects, source: source() }
}

fn untyped_int(spelling: &str) -> Expr {
    Expr {
        node: 40,
        kind: ExprKind::Constant(ConstValue::Int(spelling.to_string())),
        ty: Ty::Untyped(UntypedTy::Int),
        category: ValueCategory::Constant,
        effects: Effects::none(),
        source: source(),
    }
}

fn int_ty() -> Ty {
    Ty::Int(IntTy::Int)
}

fn chan(direction: ChannelDir, element: Ty) -> Ty {
    Ty::Channel(direction, Box::new(element))
}

fn callee_and_args(e: &Expr) -> (Builtin, &Vec<Expr>) {
    match &e.kind {
        ExprKind::Call { callee: Callee::Builtin(b), args } => (*b, args),
        _ => panic!("not a runtime call"),
    }
}

fn ident(name: &str) -> ExprSyntax {
    let s = SyntaxSource { start: 0, end: 1 };
    ExprSyntax { kind: ExprSyntaxKind::Ident(IdentSyntax { name: name.to_string(), source: s }), source: s }
}

#[test]
fn unbuffered_make_gets_a_zero_capacity() {
    let e = lowerer().lower_channel_make(chan(ChannelDir::SendReceive, int_ty()), Vec::new(), false, 7, source(), None).unwrap();
    let (builtin, args) = callee_and_args(&e);
    assert_eq!(builtin, Builtin::ChannelI64Make);
    assert_eq!(args.len(), 1);
    assert!(matches!(&args[0].kind, ExprKind::Constant(ConstValue::Int(s)) if s == "0"));
    assert_eq!(args[0].ty, int_ty());
    assert_eq!(e.ty, chan(ChannelDir::SendReceive, int_ty()));
    assert!(e.effects.may_allocate && e.effects.may_panic && e.effects.may_call && !e.effects.may_block);
}

#[test]
fn buffered_make_coerces_its_capacity() {
    let e = lowerer()
        .lower_channel_make(chan(ChannelDir::SendReceive, Ty::String), vec![untyped_int("4")], false, 7, source(), None)
        .unwrap();
    let (builtin, args) = callee_and_args(&e);
    assert_eq!(builtin, Builtin::ChannelGoStringMake);
    assert_eq!(args[0].ty, int_ty());
}

#[test]
fn make_errors() {
    let f = lowerer();
    let spread = f.lower_channel_make(chan(ChannelDir::SendReceive, int_ty()), Vec::new(), true, 7, source(), None).unwrap_err();
    assert_eq!(spread.message, "make does not accept ...");
    let bool_channel = f.lower_channel_make(chan(ChannelDir::SendReceive, Ty::Bool), Vec::new(), false, 7, source(), None).unwrap_err();
    assert_eq!(bool_channel.kind, DiagnosticKind::Unsupported);
    let too_many = f
        .lower_channel_make(chan(ChannelDir::SendReceive, int_ty()), vec![untyped_int("1"), untyped_int("2")], false, 7, source(), None)
        .unwrap_err();
    assert_eq!(too_many.message, "make(channel[, capacity]) requires one or two arguments");
}

#[test]
fn receive_gives_the_element_or_a_pair() {
    let f = lowerer();
    let ch = variable(1, chan(ChannelDir::Receive, Ty::String), false);
    let value = f.lower_channel_receive(ch, false, 8, source(), None).unwrap();
    assert_eq!(callee_and_args(&value).0, Builtin::ChannelGoStringReceiveValue);
    assert_eq!(value.ty, Ty::String);
    assert!(value.effects.may_block && value.effects.may_write && value.effects.may_read);
    let ch = variable(1, chan(ChannelDir::SendReceive, int_ty()), false);
    let pair = f.lower_channel_receive(ch, true, 8, source(), None).unwrap();
    assert_eq!(callee_and_args(&pair).0, Builtin::ChannelI64Receive);
    assert_eq!(pair.ty, Ty::Tuple(Box::new(int_ty()), Box::new(Ty::Bool)));
}

#[test]
fn receive_from_a_send_only_channel_is_refused() {
    let ch = variable(1, chan(ChannelDir::Send, int_ty()), false);
    let err = lowerer().lower_channel_receive(ch, false, 8, source(), None).unwrap_err();
    assert_eq!(err.kind, DiagnosticKind::Semantic);
    assert_eq!(err.message, "cannot receive from a send-only channel");
    let not_a_channel = variable(1, int_ty(), false);
    assert_eq!(
        lowerer().lower_channel_receive(not_a_channel, false, 8, source(), None).unwrap_err().message,
        "receive requires an executable channel element representation"
    );
}

#[test]
fn send_coerces_the_value_to_the_element() {
    let ch = variable(1, chan(ChannelDir::Send, int_ty()), false);
    let StmtKind::Expr(e) = lowerer().lower_channel_send(ch, untyped_int("5"), 9, source()).unwrap() else {
        panic!("not an expression statement")
    };
    let (builtin, args) = callee_and_args(&e);
    assert_eq!(builtin, Builtin::ChannelI64Send);
    assert_eq!(args.len(), 2);
    assert_eq!(args[1].ty, int_ty());
    assert_eq!(e.ty, Ty::Unit);
    assert!(e.effects.may_panic && e.effects.may_block);
}

#[test]
fn send_errors() {
    let ch = variable(1, chan(ChannelDir::Receive, int_ty()), false);
    assert_eq!(
        lowerer().lower_channel_send(ch, untyped_int("5"), 9, source()).unwrap_err().message,
        "cannot send to a receive-only channel"
    );
    let ch = variable(1, chan(ChannelDir::Send, int_ty()), false);
    let text = variable(2, Ty::String, false);
    assert_eq!(lowerer().lower_channel_send(ch, text, 9, source()).unwrap_err().kind, DiagnosticKind::Semantic);
}

#[test]
fn select_operations_do_not_block() {
    let f = lowerer();
    let ch = variable(1, chan(ChannelDir::SendReceive, int_ty()), false);
    let sent = f.lower_channel_try_send(ch, untyped_int("1"), 9, source()).unwrap();
    assert_eq!(callee_and_args(&sent).0, Builtin::ChannelI64TrySend);
    assert_eq!(sent.ty, Ty::Bool);
    assert!(!sent.effects.may_block);
    let ch = variable(1, chan(ChannelDir::SendReceive, Ty::String), false);
    let received = f.lower_channel_try_receive(ch, 9, source()).unwrap();
    assert_eq!(callee_and_args(&received).0, Builtin::ChannelGoStringTryReceive);
    assert_eq!(received.ty, Ty::Tuple(Box::new(Ty::String), Box::new(int_ty())));
    assert!(!received.effects.may_block);
    let ch = variable(1, chan(ChannelDir::Send, Ty::String), false);
    assert_eq!(
        f.lower_channel_try_receive(ch, 9, source()).unwrap_err().message,
        "cannot receive from a send-only channel"
    );
}

#[test]
fn close_checks_arity_and_direction() {
    let f = lowerer();
    assert_eq!(
        f.lower_channel_close_builtin_call(Vec::new(), false, 9, source(), None).unwrap_err().message,
        "close requires exactly one channel"
    );
    let ch = variable(1, chan(ChannelDir::Receive, int_ty()), false);
    assert_eq!(
        f.lower_channel_close_builtin_call(vec![ch], false, 9, source(), None).unwrap_err().message,
        "cannot close a receive-only channel"
    );
    let ch = variable(1, chan(ChannelDir::SendReceive, int_ty()), false);
    let closed = f.lower_channel_close_builtin_call(vec![ch], false, 9, source(), None).unwrap();
    assert_eq!(callee_and_args(&closed).0, Builtin::ChannelI64Close);
    assert_eq!(closed.ty, Ty::Unit);
}

#[test]
fn clear_picks_the_runtime_operation_by_type() {
    let f = lowerer();
    let slice = variable(1, Ty::Slice(Box::new(Ty::String)), false);
    let e = f.lower_clear_builtin_call(vec![slice], false, 9, source(), None).unwrap();
    assert_eq!(callee_and_args(&e).0, Builtin::SliceGoStringClear);
    assert!(e.effects.may_write && e.effects.may_read);
    let map = variable(1, Ty::MapTy(Box::new(int_ty()), Box::new(Ty::String)), false);
    let e = f.lower_clear_builtin_call(vec![map], false, 9, source(), None).unwrap();
    assert_eq!(callee_and_args(&e).0, Builtin::MapI64GoStringClear);
    let other = variable(1, Ty::Slice(Box::new(Ty::Bool)), false);
    assert_eq!(f.lower_clear_builtin_call(vec![other], false, 9, source(), None).unwrap_err().kind, DiagnosticKind::Unsupported);
    let slice = variable(1, Ty::Slice(Box::new(int_ty())), false);
    assert_eq!(
        f.lower_clear_builtin_call(vec![slice], true, 9, source(), None).unwrap_err().message,
        "clear does not accept ..."
    );
}

#[test]
fn delete_coerces_the_key() {
    let f = lowerer();
    let map = variable(1, Ty::MapTy(Box::new(int_ty()), Box::new(Ty::String)), true);
    let e = f.lower_delete_builtin_call(vec![map, untyped_int("3")], false, 9, source(), None).unwrap();
    let (builtin, args) = callee_and_args(&e);
    assert_eq!(builtin, Builtin::MapI64GoStringDelete);
    assert_eq!(args[1].ty, int_ty());
    assert!(e.effects.may_panic && e.effects.may_write);
    let map = variable(1, Ty::MapTy(Box::new(Ty::Bool), Box::new(Ty::String)), false);
    assert_eq!(
        f.lower_delete_builtin_call(vec![map, untyped_int("3")], false, 9, source(), None).unwrap_err().message,
        "delete requires a map with an executable key/value representation"
    );
    assert_eq!(
        f.lower_delete_builtin_call(Vec::new(), false, 9, source(), None).unwrap_err().message,
        "delete requires a map and key"
    );
}

#[test]
fn dereference_reads_an_int_pointer() {
    let f = lowerer();
    let p = variable(1, Ty::Pointer(Box::new(int_ty())), false);
    let e = f.lower_pointer_deref(p, 9, source(), None).unwrap();
    assert_eq!(callee_and_args(&e).0, Builtin::PointerI64Get);
    assert_eq!(e.ty, int_ty());
    assert!(e.effects.may_panic);
    let q = variable(1, Ty::Pointer(Box::new(Ty::String)), false);
    assert_eq!(f.lower_pointer_deref(q, 9, source(), None).unwrap_err().kind, DiagnosticKind::Unsupported);
    let v = variable(1, int_ty(), false);
    assert_eq!(f.lower_pointer_deref(v, 9, source(), None).unwrap_err().message, "cannot dereference non-pointer value");
}

#[test]
fn indirect_assignment_stores_through_the_pointer() {
    let f = lowerer();
    let p = variable(4, Ty::Pointer(Box::new(int_ty())), false);
    let StmtKind::Expr(e) = f.lower_pointer_assignment(Token::ASSIGN, p, untyped_int("2"), source()).unwrap() else {
        panic!("not an expression statement")
    };
    let (builtin, args) = callee_and_args(&e);
    assert_eq!(builtin, Builtin::PointerI64Set);
    assert_eq!(e.node, 4);
    assert_eq!(args[1].ty, int_ty());
    let p = variable(4, Ty::Pointer(Box::new(int_ty())), false);
    assert_eq!(
        f.lower_pointer_assignment(Token::ADD_ASSIGN, p, untyped_int("2"), source()).unwrap_err().message,
        "pointer assignment currently requires ="
    );
    let q = variable(4, int_ty(), false);
    assert_eq!(
        f.lower_pointer_assignment(Token::ASSIGN, q, untyped_int("2"), source()).unwrap_err().message,
        "indirect assignment requires a pointer"
    );
}

#[test]
fn indirect_assignment_operands_are_recognised() {
    let star = ExprSyntax {
        kind: ExprSyntaxKind::Unary { token: Token::MUL, expression: Box::new(ident("p")) },
        source: SyntaxSource { start: 0, end: 2 },
    };
    let left = vec![star];
    let right = vec![ident("v")];
    let (pointer, value) = pointer_assignment_operands(&left, &right).unwrap();
    assert!(matches!(&pointer.kind, ExprSyntaxKind::Ident(i) if i.name == "p"));
    assert!(matches!(&value.kind, ExprSyntaxKind::Ident(i) if i.name == "v"));
    let plain = vec![ident("p")];
    assert!(pointer_assignment_operands(&plain, &right).is_none());
}

#[test]
fn array_length_comes_from_the_type() {
    let array = variable(5, Ty::Array(3, Box::new(int_ty())), true);
    let e = lowerer().lower_array_len(array, 3, 12, source(), None).unwrap();
    assert!(matches!(&e.kind, ExprKind::ArrayLen { length: 3, .. }));
    assert_eq!(e.ty, int_ty());
    assert!(e.effects.may_panic && e.effects.may_read);
    let array = variable(5, Ty::Array(3, Box::new(int_ty())), false);
    assert_eq!(
        lowerer().lower_array_len(array, 3, 12, source(), Some(&Ty::String)).unwrap_err().kind,
        DiagnosticKind::Semantic
    );
}

#[test]
fn status_comparisons_read_the_status_local() {
    let mut f = lowerer();
    let first = f.next_node;
    let at = SyntaxSource { start: 4, end: 6 };
    let e = f.select_status_comparison(LocalId(2), BinaryOp::Equal, -17, at).unwrap();
    assert_eq!(f.next_node, first + 3);
    assert_eq!(e.ty, Ty::Bool);
    assert_eq!(e.node, (first + 2) as u64);
    match &e.kind {
        ExprKind::Binary { op, left, right } => {
            assert_eq!(*op, BinaryOp::Equal);
            assert!(matches!(left.kind, ExprKind::Local(2)));
            assert_eq!(left.node, first as u64);
            assert!(matches!(&right.kind, ExprKind::Constant(ConstValue::Int(s)) if s == "-17"));
        }
        _ => panic!("not a comparison"),
    }
}

#[test]
fn local_reads_are_places() {
    let f = lowerer();
    let e = f.local_expr(NodeId { owner: 3, local: 8 }, LocalId(1), Ty::String);
    assert_eq!(e.category, ValueCategory::Place);
    assert!(e.effects.may_read && !e.effects.may_write);
    assert_eq!(e.source, SourceRef::Node(NodeId { owner: 3, local: 8 }));
}

#[test]
fn i64_values_are_spelled_in_decimal() {
    assert_eq!(i64_spelling(0), "0");
    assert_eq!(i64_spelling(1234567), "1234567");
    assert_eq!(i64_spelling(-9), "-9");
    assert_eq!(i64_spelling(i64::MIN), "-9223372036854775808");
}

#[test]
fn range_clauses_match_what_the_iterator_yields() {
    let f = lowerer();
    let k = ident("k");
    let v = ident("v");
    let err = f.validate_function_range_clause(Some(&k), Some(&v), Some(Token::DEFINE), 1, source()).unwrap_err();
    assert_eq!(err.message, "range clause declares 2 variables but iterator yields 1 values");
    let err = f.validate_function_range_clause(None, None, Some(Token::DEFINE), 2, source()).unwrap_err();
    assert_eq!(err.message, "invalid range-over-function assignment clause");
    let err = f.validate_function_range_clause(Some(&k), None, None, 2, source()).unwrap_err();
    assert_eq!(err.message, "invalid range-over-function assignment clause");
    assert!(f.validate_function_range_clause(Some(&k), None, Some(Token::ASSIGN), 2, source()).is_ok());
    assert!(f.validate_function_range_clause(None, None, None, 0, source()).is_ok());
}

#[test]
fn yield_functions_return_booleans() {
    let mut f = lowerer();
    let first = f.next_node;
    let st = f.bool_return(true, SyntaxSource { start: 1, end: 2 }).unwrap();
    assert_eq!(st.node, (first + 1) as u64);
    match &st.kind {
        StmtKind::Return(values) => {
            assert_eq!(values.len(), 1);
            assert!(matches!(values[0].kind, ExprKind::Constant(ConstValue::Bool(true))));
            assert_eq!(values[0].ty, Ty::Bool);
        }
        _ => panic!("not a return"),
    }
}

#[test]
fn omitted_slice_bounds_are_minus_one() {
    let mut f = lowerer();
    let first = f.next_node;
    let e = f.lower_optional_slice_bound(None, SyntaxSource { start: 1, end: 2 }).unwrap();
    assert!(matches!(&e.kind, ExprKind::Constant(ConstValue::Int(s)) if s == "-1"));
    assert_eq!(e.ty, int_ty());
    assert_eq!(f.next_node, first + 1);
    let given = f.lower_optional_slice_bound(Some(untyped_int("3")), SyntaxSource { start: 1, end: 2 }).unwrap();
    assert_eq!(given.ty, int_ty());
    assert_eq!(f.next_node, first + 1);
    let text = variable(1, Ty::String, false);
    assert!(f.lower_optional_slice_bound(Some(text), SyntaxSource { start: 1, end: 2 }).is_err());
}

fn local_target(ty: Option<Ty>) -> AssignTarget {
    AssignTarget { kind: AssignTargetKind::Local(LocalId(0)), ty, source: source() }
}

#[test]
fn increments_add_a_typed_one() {
    let mut f = lowerer();
    let first = f.next_node;
    let uint8 = Ty::Uint(gors_semantic::types::UintTy::Uint8);
    let stmt = f.lower_inc_dec(local_target(Some(uint8)), Token::DEC, SyntaxSource { start: 0, end: 3 }, source()).unwrap();
    match stmt {
        StmtKind::Assign { destinations, op, values } => {
            assert_eq!(op, AssignOp::Sub);
            assert_eq!(destinations.len(), 1);
            assert_eq!(values.len(), 1);
            assert!(matches!(&values[0].kind, ExprKind::Constant(ConstValue::Int(s)) if s == "1"));
            assert_eq!(values[0].ty, Ty::Uint(gors_semantic::types::UintTy::Uint8));
            assert_eq!(values[0].node, first as u64);
        }
        _ => panic!("not an assignment"),
    }
}

#[test]
fn increments_need_an_integer_destination() {
    let mut f = lowerer();
    let at = SyntaxSource { start: 0, end: 3 };
    assert_eq!(
        f.lower_inc_dec(local_target(Some(int_ty())), Token::ADD, at, source()).unwrap_err().message,
        "invalid increment/decrement token"
    );
    assert_eq!(
        f.lower_inc_dec(local_target(None), Token::INC, at, source()).unwrap_err().message,
        "increment and decrement require a non-blank operand"
    );
    assert_eq!(
        f.lower_inc_dec(local_target(Some(Ty::String)), Token::INC, at, source()).unwrap_err().message,
        "increment and decrement require an integer operand"
    );
}

#[test]
fn indirect_assignment_targets_store_through_int_pointers() {
    let mut f = lowerer();
    let at = SyntaxSource { start: 0, end: 3 };
    let p = variable(4, Ty::Pointer(Box::new(int_ty())), false);
    let target = f.lower_pointer_assignment_target(p, at, source()).unwrap();
    assert_eq!(target.ty, Some(int_ty()));
    assert!(matches!(target.kind, AssignTargetKind::Pointer { set: Builtin::PointerI64Set, .. }));
    let q = variable(4, Ty::Pointer(Box::new(Ty::Bool)), false);
    assert_eq!(f.lower_pointer_assignment_target(q, at, source()).unwrap_err().kind, DiagnosticKind::Unsupported);
}

#[test]
fn a_refused_coercion_leaves_the_expression_unchanged() {
    let mut e = variable(5, Ty::String, false);
    let before = format!("{:?}", e);
    let err = gors_semantic::expressions::coerce_expr(&mut e, &Ty::Bool, source()).unwrap_err();
    assert_eq!(err.kind, DiagnosticKind::Semantic);
    assert_eq!(format!("{:?}", e), before);
    let mut shift = Expr {
        node: 41,
        kind: ExprKind::Binary { op: BinaryOp::Shl, left: Box::new(untyped_int("1")), right: Box::new(variable(6, Ty::String, false)) },
        ty: Ty::Untyped(UntypedTy::Int),
        category: ValueCategory::Value,
        effects: Effects::none(),
        source: source(),
    };
    let before = format!("{:?}", shift);
    assert!(gors_semantic::expressions::coerce_expr(&mut shift, &Ty::String, source()).is_err());
    assert_eq!(format!("{:?}", shift), before);
}
