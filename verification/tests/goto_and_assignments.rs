use gors_semantic::assignments::assignment_op;
use gors_semantic::calls::could_be_call;
use gors_semantic::ranges::iterator_parameter_name;
use gors_semantic::selects::{plan_select, receive_operand, SelectPlan};
use gors_semantic::goto_scopes::validate;
use gors_semantic::hir::{AssignOp, DiagnosticKind, NodeId, SourceRef};
use gors_semantic::iteration::assigned_names_in_block;
use gors_semantic::syntax::{
    BlockSyntax, ExprSyntax, ExprSyntaxKind, FieldListSyntax, FieldSyntax, FunctionHeaderSyntax, IdentSyntax,
    SelectCaseSyntax, StmtSyntax, StmtSyntaxKind, SyntaxSource, Token,
};

fn at(start: u64) -> SyntaxSource {
    SyntaxSource { start, end: start + 1 }
}

fn ident(n: &str) -> IdentSyntax {
    IdentSyntax { name: n.to_string(), source: at(0) }
}

fn name(n: &str) -> ExprSyntax {
    ExprSyntax { kind: ExprSyntaxKind::Ident(ident(n)), source: at(0) }
}

fn one() -> ExprSyntax {
    ExprSyntax { kind: ExprSyntaxKind::Literal { token: Token::INT, spelling: "1".to_string() }, source: at(0) }
}

fn stmt(kind: StmtSyntaxKind) -> StmtSyntax {
    stmt_at(kind, 0)
}

fn stmt_at(kind: StmtSyntaxKind, start: u64) -> StmtSyntax {
    StmtSyntax { kind, source: at(start) }
}

fn define(n: &str) -> StmtSyntax {
    stmt(StmtSyntaxKind::Assign { left: vec![name(n)], token: Token::DEFINE, right: vec![one()] })
}

fn assign(n: &str, token: Token) -> StmtSyntax {
    stmt(StmtSyntaxKind::Assign { left: vec![name(n)], token, right: vec![one()] })
}

fn label(n: &str) -> StmtSyntax {
    stmt(StmtSyntaxKind::Labeled { label: ident(n), statement: Box::new(stmt(StmtSyntaxKind::Empty)) })
}

fn goto(n: &str, start: u64) -> StmtSyntax {
    stmt_at(StmtSyntaxKind::Branch { token: Token::GOTO, label: Some(ident(n)) }, start)
}

fn block(statements: Vec<StmtSyntax>) -> BlockSyntax {
    BlockSyntax { statements }
}

#[test]
fn backward_goto_is_allowed() {
    let body = block(vec![label("L"), define("x"), goto("L", 5)]);
    assert!(validate(&body).is_ok());
}

#[test]
fn forward_goto_over_a_declaration_is_refused() {
    let body = block(vec![goto("L", 7), define("x"), label("L")]);
    let err = validate(&body).unwrap_err();
    assert_eq!(err.message, "goto L jumps over declaration of x");
    assert_eq!(err.source, at(7));
}

#[test]
fn goto_into_a_block_is_refused() {
    let body = block(vec![goto("L", 3), stmt(StmtSyntaxKind::Block(block(vec![label("L")])))]);
    let err = validate(&body).unwrap_err();
    assert_eq!(err.message, "goto L jumps into block");
}

#[test]
fn declarations_inside_a_closed_block_do_not_count() {
    let body = block(vec![goto("L", 3), stmt(StmtSyntaxKind::Block(block(vec![define("x")]))), label("L")]);
    assert!(validate(&body).is_ok());
}

#[test]
fn goto_to_an_unknown_label_is_left_to_the_resolver() {
    let body = block(vec![goto("missing", 1)]);
    assert!(validate(&body).is_ok());
}

#[test]
fn assigned_names_cover_nested_statements() {
    let inner = stmt(StmtSyntaxKind::Block(block(vec![assign("b", Token::ADD_ASSIGN)])));
    let body = block(vec![assign("a", Token::ASSIGN), inner, assign("a", Token::ASSIGN)]);
    let mut names = assigned_names_in_block(&body);
    names.sort();
    assert_eq!(names, vec!["a".to_string(), "b".to_string()]);
}

#[test]
fn assignment_tokens_map_to_operators() {
    let source = SourceRef::Node(NodeId { owner: 1, local: 1 });
    assert_eq!(assignment_op(Token::ASSIGN, source).unwrap(), AssignOp::Assign);
    assert_eq!(assignment_op(Token::SHL_ASSIGN, source).unwrap(), AssignOp::Shl);
    assert_eq!(assignment_op(Token::AND_NOT_ASSIGN, source).unwrap(), AssignOp::AndNot);
    assert_eq!(assignment_op(Token::ADD, source).unwrap_err().kind, DiagnosticKind::Semantic);
}

#[test]
fn calls_may_be_parenthesized() {
    let call = ExprSyntax {
        kind: ExprSyntaxKind::Call { callee: Box::new(name("f")), arguments: Vec::new(), spread: false },
        source: at(0),
    };
    let wrapped = ExprSyntax { kind: ExprSyntaxKind::Paren(Box::new(call)), source: at(0) };
    assert!(could_be_call(&wrapped));
    assert!(!could_be_call(&name("f")));
}

fn header(params: Vec<FieldSyntax>) -> FunctionHeaderSyntax {
    FunctionHeaderSyntax {
        name: ident("seq"),
        receiver: None,
        type_parameters: None,
        params: FieldListSyntax { fields: params },
        results: None,
    }
}

#[test]
fn range_iterators_yield_through_one_named_parameter() {
    let source = SourceRef::Node(NodeId { owner: 1, local: 1 });
    let one = header(vec![FieldSyntax { names: Some(vec![ident("yield")]), ty: Some(name("func")) }]);
    assert_eq!(iterator_parameter_name(&one, source).unwrap(), "yield");
    let unnamed = header(vec![FieldSyntax { names: None, ty: Some(name("func")) }]);
    assert_eq!(iterator_parameter_name(&unnamed, source).unwrap_err().message, "range iterator yield parameter must be named");
    let two = header(vec![FieldSyntax { names: Some(vec![ident("a"), ident("b")]), ty: Some(name("func")) }]);
    assert_eq!(iterator_parameter_name(&two, source).unwrap_err().kind, DiagnosticKind::Semantic);
    assert_eq!(iterator_parameter_name(&header(Vec::new()), source).unwrap_err().kind, DiagnosticKind::Backend);
}

#[test]
fn receive_operands_are_found_through_parentheses() {
    let receive = ExprSyntax {
        kind: ExprSyntaxKind::Unary { token: Token::ARROW, expression: Box::new(name("ch")) },
        source: at(0),
    };
    let wrapped = ExprSyntax { kind: ExprSyntaxKind::Paren(Box::new(receive)), source: at(0) };
    assert!(matches!(receive_operand(&wrapped).map(|e| &e.kind), Some(ExprSyntaxKind::Ident(i)) if i.name == "ch"));
    assert!(receive_operand(&name("ch")).is_none());
}

fn select_case(communication: bool) -> SelectCaseSyntax {
    let receive = ExprSyntax {
        kind: ExprSyntaxKind::Unary { token: Token::ARROW, expression: Box::new(name("ch")) },
        source: at(0),
    };
    SelectCaseSyntax {
        communication: if communication { Some(Box::new(stmt(StmtSyntaxKind::Expr(receive)))) } else { None },
        body: block(Vec::new()),
    }
}

fn source() -> SourceRef {
    SourceRef::Node(NodeId { owner: 1, local: 2 })
}

#[test]
fn select_with_a_default_tries_its_communication() {
    let plan = plan_select(&[select_case(false), select_case(true)], source()).unwrap();
    assert_eq!(plan, SelectPlan::TryCommunication { communication: 1, default: 0 });
    let plan = plan_select(&[select_case(true), select_case(false)], source()).unwrap();
    assert_eq!(plan, SelectPlan::TryCommunication { communication: 0, default: 1 });
    assert_eq!(plan_select(&[select_case(false)], source()).unwrap(), SelectPlan::DefaultOnly { default: 0 });
}

#[test]
fn select_cases_that_need_a_scheduler_are_refused() {
    let empty = plan_select(&[], source()).unwrap_err();
    assert_eq!(empty.kind, DiagnosticKind::Unsupported);
    assert_eq!(empty.message, "an empty select requires scheduler-backed blocking");
    let alone = plan_select(&[select_case(true)], source()).unwrap_err();
    assert_eq!(alone.message, "select without a default requires scheduler-backed blocking");
    let two = plan_select(&[select_case(true), select_case(false), select_case(true)], source()).unwrap_err();
    assert_eq!(two.kind, DiagnosticKind::Unsupported);
    assert_eq!(two.message, "select with multiple communication cases requires channel arbitration");
}

#[test]
fn the_first_repeated_case_decides_the_select_error() {
    let defaults = plan_select(&[select_case(false), select_case(false), select_case(true), select_case(true)], source())
        .unwrap_err();
    assert_eq!(defaults.kind, DiagnosticKind::Semantic);
    assert_eq!(defaults.message, "select has multiple default clauses");
}

#[test]
fn goto_errors_point_at_the_goto() {
    let inner = stmt(StmtSyntaxKind::Block(block(vec![label("L")])));
    let body = block(vec![define("y"), goto("L", 9), inner]);
    let err = validate(&body).unwrap_err();
    assert_eq!(err.source, at(9));
    assert_eq!(err.message, "goto L jumps into block");
}
