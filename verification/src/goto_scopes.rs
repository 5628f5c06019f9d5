//! Function-scoped label resolution and lexical legality checks for `goto`.

use vstd::prelude::*;

use crate::syntax::{
    BlockSyntax, CaseClauseSyntax, DeclSyntax, ExprSyntax, ExprSyntaxKind, IdentSyntax,
    SelectCaseSyntax, SpecSyntax, StmtSyntax, StmtSyntaxKind, SyntaxSource, Token,
};

verus! {

// How many scopes and bindings a walk of the syntax can create: a bound
// that the analyzer's counters are checked against.

/// The scopes and declarations that a statement can introduce, bounded.
pub open spec fn stmt_weight(s: StmtSyntax) -> nat
    decreases s, 0int,
{
    1 + match s.kind {
        StmtSyntaxKind::Block(b) => block_weight(b),
        StmtSyntaxKind::Decl(d) => specs_weight(d.specs@),
        StmtSyntaxKind::Assign { left, .. } => left@.len(),
        StmtSyntaxKind::If { init, then_block, else_branch, .. } => opt_weight(init) + block_weight(then_block)
            + opt_weight(else_branch),
        StmtSyntaxKind::For { init, post, body, .. } => opt_weight(init) + block_weight(body) + opt_weight(post),
        StmtSyntaxKind::Range { body, .. } => 2 + block_weight(body),
        StmtSyntaxKind::Switch { init, cases, .. } => opt_weight(init) + cases_weight(cases@),
        StmtSyntaxKind::TypeSwitch { init, cases, .. } => opt_weight(init) + 2 * cases@.len() + cases_weight(
            cases@,
        ),
        StmtSyntaxKind::Select { cases } => 2 * cases@.len() + select_weight(cases@),
        StmtSyntaxKind::Labeled { statement, .. } => stmt_weight(*statement),
        _ => 0,
    }
}

pub open spec fn opt_weight(s: Option<Box<StmtSyntax>>) -> nat
    decreases s, 1int,
{
    match s {
        Some(b) => stmt_weight(*b),
        None => 0,
    }
}

pub open spec fn block_weight(b: BlockSyntax) -> nat
    decreases b, 1int,
{
    1 + stmts_weight(b.statements@)
}

pub open spec fn stmts_weight(s: Seq<StmtSyntax>) -> nat
    decreases s, 0int,
{
    if s.len() == 0 {
        0
    } else {
        stmts_weight(s.drop_last()) + stmt_weight(s.last())
    }
}

pub open spec fn cases_weight(s: Seq<CaseClauseSyntax>) -> nat
    decreases s, 0int,
{
    if s.len() == 0 {
        0
    } else {
        cases_weight(s.drop_last()) + block_weight(s.last().body)
    }
}

pub open spec fn select_weight(s: Seq<SelectCaseSyntax>) -> nat
    decreases s, 0int,
{
    if s.len() == 0 {
        0
    } else {
        select_weight(s.drop_last()) + opt_weight(s.last().communication) + block_weight(s.last().body)
    }
}

pub open spec fn specs_weight(s: Seq<SpecSyntax>) -> nat
    decreases s.len(),
{
    if s.len() == 0 {
        0
    } else {
        specs_weight(s.drop_last()) + s.last().names@.len()
    }
}

proof fn lemma_stmts_weight_prefix(s: Seq<StmtSyntax>, i: int)
    requires
        0 <= i <= s.len(),
    ensures
        stmts_weight(s.take(i)) <= stmts_weight(s),
        i < s.len() ==> stmts_weight(s.take(i + 1)) == stmts_weight(s.take(i)) + stmt_weight(s[i]),
    decreases s.len(),
{
    if i < s.len() {
        assert(s.take(i + 1).drop_last() =~= s.take(i));
        lemma_stmts_weight_prefix(s.drop_last(), i);
        assert(s.drop_last().take(i) =~= s.take(i));
        if i + 1 < s.len() {
            lemma_stmts_weight_prefix(s.drop_last(), i + 1);
            assert(s.drop_last().take(i + 1) =~= s.take(i + 1));
        } else {
            assert(s.take(i + 1) =~= s);
        }
    } else {
        assert(s.take(i) =~= s);
    }
}

proof fn lemma_cases_weight_prefix(s: Seq<CaseClauseSyntax>, i: int)
    requires
        0 <= i <= s.len(),
    ensures
        cases_weight(s.take(i)) <= cases_weight(s),
        i < s.len() ==> cases_weight(s.take(i + 1)) == cases_weight(s.take(i)) + block_weight(s[i].body),
    decreases s.len(),
{
    if i < s.len() {
        assert(s.take(i + 1).drop_last() =~= s.take(i));
        lemma_cases_weight_prefix(s.drop_last(), i);
        assert(s.drop_last().take(i) =~= s.take(i));
        if i + 1 < s.len() {
            lemma_cases_weight_prefix(s.drop_last(), i + 1);
            assert(s.drop_last().take(i + 1) =~= s.take(i + 1));
        } else {
            assert(s.take(i + 1) =~= s);
        }
    } else {
        assert(s.take(i) =~= s);
    }
}

proof fn lemma_select_weight_prefix(s: Seq<SelectCaseSyntax>, i: int)
    requires
        0 <= i <= s.len(),
    ensures
        select_weight(s.take(i)) <= select_weight(s),
        i < s.len() ==> select_weight(s.take(i + 1)) == select_weight(s.take(i)) + opt_weight(s[i].communication)
            + block_weight(s[i].body),
    decreases s.len(),
{
    if i < s.len() {
        assert(s.take(i + 1).drop_last() =~= s.take(i));
        lemma_select_weight_prefix(s.drop_last(), i);
        assert(s.drop_last().take(i) =~= s.take(i));
        if i + 1 < s.len() {
            lemma_select_weight_prefix(s.drop_last(), i + 1);
            assert(s.drop_last().take(i + 1) =~= s.take(i + 1));
        } else {
            assert(s.take(i + 1) =~= s);
        }
    } else {
        assert(s.take(i) =~= s);
    }
}

proof fn lemma_specs_weight_prefix(s: Seq<SpecSyntax>, i: int)
    requires
        0 <= i <= s.len(),
    ensures
        specs_weight(s.take(i)) <= specs_weight(s),
        i < s.len() ==> specs_weight(s.take(i + 1)) == specs_weight(s.take(i)) + s[i].names@.len(),
    decreases s.len(),
{
    if i < s.len() {
        assert(s.take(i + 1).drop_last() =~= s.take(i));
        lemma_specs_weight_prefix(s.drop_last(), i);
        assert(s.drop_last().take(i) =~= s.take(i));
        if i + 1 < s.len() {
            lemma_specs_weight_prefix(s.drop_last(), i + 1);
            assert(s.drop_last().take(i + 1) =~= s.take(i + 1));
        } else {
            assert(s.take(i + 1) =~= s);
        }
    } else {
        assert(s.take(i) =~= s);
    }
}

// The goto statements and labels of a body, in the order a walk meets
// them.

/// The label and source of each `goto` of a statement, in walk order.
pub open spec fn stmt_gotos(s: StmtSyntax) -> Seq<(Seq<char>, SyntaxSource)>
    decreases s, 0int,
{
    match s.kind {
        StmtSyntaxKind::Block(b) => block_gotos(b),
        StmtSyntaxKind::If { init, then_block, else_branch, .. } => opt_gotos(init) + block_gotos(then_block)
            + opt_gotos(else_branch),
        StmtSyntaxKind::For { init, post, body, .. } => opt_gotos(init) + block_gotos(body) + opt_gotos(post),
        StmtSyntaxKind::Range { body, .. } => block_gotos(body),
        StmtSyntaxKind::Switch { init, cases, .. } => opt_gotos(init) + cases_gotos(cases@),
        StmtSyntaxKind::TypeSwitch { init, cases, .. } => opt_gotos(init) + cases_gotos(cases@),
        StmtSyntaxKind::Select { cases } => select_gotos(cases@),
        StmtSyntaxKind::Labeled { statement, .. } => stmt_gotos(*statement),
        StmtSyntaxKind::Branch { token, label } => match label {
            Some(l) => if token == Token::GOTO {
                seq![(l.name@, s.source)]
            } else {
                Seq::empty()
            },
            None => Seq::empty(),
        },
        _ => Seq::empty(),
    }
}

pub open spec fn opt_gotos(s: Option<Box<StmtSyntax>>) -> Seq<(Seq<char>, SyntaxSource)>
    decreases s, 1int,
{
    match s {
        Some(b) => stmt_gotos(*b),
        None => Seq::empty(),
    }
}

pub open spec fn block_gotos(b: BlockSyntax) -> Seq<(Seq<char>, SyntaxSource)>
    decreases b, 1int,
{
    stmts_gotos(b.statements@)
}

pub open spec fn stmts_gotos(s: Seq<StmtSyntax>) -> Seq<(Seq<char>, SyntaxSource)>
    decreases s, 0int,
{
    if s.len() == 0 {
        Seq::empty()
    } else {
        stmts_gotos(s.drop_last()) + stmt_gotos(s.last())
    }
}

pub open spec fn cases_gotos(s: Seq<CaseClauseSyntax>) -> Seq<(Seq<char>, SyntaxSource)>
    decreases s, 0int,
{
    if s.len() == 0 {
        Seq::empty()
    } else {
        cases_gotos(s.drop_last()) + block_gotos(s.last().body)
    }
}

pub open spec fn select_gotos(s: Seq<SelectCaseSyntax>) -> Seq<(Seq<char>, SyntaxSource)>
    decreases s, 0int,
{
    if s.len() == 0 {
        Seq::empty()
    } else {
        select_gotos(s.drop_last()) + opt_gotos(s.last().communication) + block_gotos(s.last().body)
    }
}

/// The name of an optional label.
pub open spec fn label_set(label: Option<IdentSyntax>) -> Set<Seq<char>> {
    match label {
        Some(l) => set![l.name@],
        None => Set::empty(),
    }
}

/// The labels that a statement defines, on labeled statements and loops.
pub open spec fn stmt_labels(s: StmtSyntax) -> Set<Seq<char>>
    decreases s, 0int,
{
    match s.kind {
        StmtSyntaxKind::Block(b) => block_labels(b),
        StmtSyntaxKind::If { init, then_block, else_branch, .. } => opt_labels(init).union(
            block_labels(then_block),
        ).union(opt_labels(else_branch)),
        StmtSyntaxKind::For { label, init, post, body, .. } => label_set(label).union(opt_labels(init)).union(
            block_labels(body),
        ).union(opt_labels(post)),
        StmtSyntaxKind::Range { label, body, .. } => label_set(label).union(block_labels(body)),
        StmtSyntaxKind::Switch { init, cases, .. } => opt_labels(init).union(cases_labels(cases@)),
        StmtSyntaxKind::TypeSwitch { init, cases, .. } => opt_labels(init).union(cases_labels(cases@)),
        StmtSyntaxKind::Select { cases } => select_labels(cases@),
        StmtSyntaxKind::Labeled { label, statement } => set![label.name@].union(stmt_labels(*statement)),
        _ => Set::empty(),
    }
}

pub open spec fn opt_labels(s: Option<Box<StmtSyntax>>) -> Set<Seq<char>>
    decreases s, 1int,
{
    match s {
        Some(b) => stmt_labels(*b),
        None => Set::empty(),
    }
}

pub open spec fn block_labels(b: BlockSyntax) -> Set<Seq<char>>
    decreases b, 1int,
{
    stmts_labels(b.statements@)
}

pub open spec fn stmts_labels(s: Seq<StmtSyntax>) -> Set<Seq<char>>
    decreases s, 0int,
{
    if s.len() == 0 {
        Set::empty()
    } else {
        stmts_labels(s.drop_last()).union(stmt_labels(s.last()))
    }
}

pub open spec fn cases_labels(s: Seq<CaseClauseSyntax>) -> Set<Seq<char>>
    decreases s, 0int,
{
    if s.len() == 0 {
        Set::empty()
    } else {
        cases_labels(s.drop_last()).union(block_labels(s.last().body))
    }
}

pub open spec fn select_labels(s: Seq<SelectCaseSyntax>) -> Set<Seq<char>>
    decreases s, 0int,
{
    if s.len() == 0 {
        Set::empty()
    } else {
        select_labels(s.drop_last()).union(opt_labels(s.last().communication)).union(block_labels(s.last().body))
    }
}

/// A goto that would enter a block or skip a declaration.
#[derive(Debug)]
pub struct GotoScopeError {
    pub message: String,
    pub source: SyntaxSource,
}

/// A lexical scope: its identity and the variables declared in it, each
/// with its binding number.
pub struct Scope {
    pub id: usize,
    pub bindings: Vec<(String, usize)>,
}

/// Where a statement stands: the identities of the enclosing scopes,
/// outermost first, and the bindings visible there.
pub struct Position {
    pub scope_path: Vec<usize>,
    pub bindings: Vec<usize>,
}

pub struct GotoUse {
    pub label: String,
    pub source: SyntaxSource,
    pub position: Position,
}

/// A label and where it stands; a label defined twice has no position.
pub struct LabelEntry {
    pub name: String,
    pub position: Option<Position>,
}

/// The state of a walk over a function body.
pub struct Analyzer {
    pub next_scope: usize,
    pub next_binding: usize,
    pub scopes: Vec<Scope>,
    pub binding_names: Vec<String>,
    pub labels: Vec<LabelEntry>,
    pub gotos: Vec<GotoUse>,
}

/// The scope holds a variable of that name.
pub open spec fn scope_has(s: Scope, name: Seq<char>) -> bool {
    exists|k: int| 0 <= k < s.bindings@.len() && (#[trigger] s.bindings@[k]).0@ == name
}

/// The identities of the scopes, outermost first.
pub open spec fn scope_path(scopes: Seq<Scope>) -> Seq<usize> {
    scopes.map_values(|s: Scope| s.id)
}

/// The binding numbers of a scope.
pub open spec fn scope_binding_ids(s: Scope) -> Seq<usize> {
    s.bindings@.map_values(|p: (String, usize)| p.1)
}

/// The binding numbers visible in the scopes.
pub open spec fn visible_bindings(scopes: Seq<Scope>) -> Seq<usize>
    decreases scopes.len(),
{
    if scopes.len() == 0 {
        Seq::empty()
    } else {
        visible_bindings(scopes.drop_last()) + scope_binding_ids(scopes.last())
    }
}

/// The state of a walk as plain values: the counters, the open scopes with
/// their identities and bindings, the names of the bindings, the labels
/// with where they stand, and the gotos with where they stand.
pub struct WalkState {
    pub next_scope: int,
    pub next_binding: int,
    pub scopes: Seq<(usize, Seq<(Seq<char>, usize)>)>,
    pub names: Seq<Seq<char>>,
    pub labels: Seq<(Seq<char>, Option<(Seq<usize>, Seq<usize>)>)>,
    pub gotos: Seq<(Seq<char>, SyntaxSource, (Seq<usize>, Seq<usize>))>,
}

/// The identities of open scopes, outermost first.
pub open spec fn model_path(scopes: Seq<(usize, Seq<(Seq<char>, usize)>)>) -> Seq<usize> {
    scopes.map_values(|s: (usize, Seq<(Seq<char>, usize)>)| s.0)
}

/// The binding numbers visible in open scopes.
pub open spec fn model_visible(scopes: Seq<(usize, Seq<(Seq<char>, usize)>)>) -> Seq<usize>
    decreases scopes.len(),
{
    if scopes.len() == 0 {
        Seq::empty()
    } else {
        model_visible(scopes.drop_last()) + scopes.last().1.map_values(|b: (Seq<char>, usize)| b.1)
    }
}

/// Where the walk stands.
pub open spec fn model_position(st: WalkState) -> (Seq<usize>, Seq<usize>) {
    (model_path(st.scopes), model_visible(st.scopes))
}

/// Opening a scope.
pub open spec fn walk_push(st: WalkState) -> WalkState {
    WalkState {
        next_scope: st.next_scope + 1,
        next_binding: st.next_binding,
        scopes: st.scopes.push((st.next_scope as usize, Seq::empty())),
        names: st.names,
        labels: st.labels,
        gotos: st.gotos,
    }
}

/// Closing the innermost scope.
pub open spec fn walk_pop(st: WalkState) -> WalkState {
    WalkState {
        next_scope: st.next_scope,
        next_binding: st.next_binding,
        scopes: st.scopes.drop_last(),
        names: st.names,
        labels: st.labels,
        gotos: st.gotos,
    }
}

/// The innermost scope declares the name.
pub open spec fn innermost_has(st: WalkState, name: Seq<char>) -> bool {
    exists|k: int| 0 <= k < st.scopes.last().1.len() && (#[trigger] st.scopes.last().1[k]).0 == name
}

/// Declaring a variable: the blank identifier and a name the innermost
/// scope already has change nothing; any other name gets the next binding.
pub open spec fn walk_declare(st: WalkState, name: Seq<char>) -> WalkState {
    if name == "_"@ || innermost_has(st, name) {
        st
    } else {
        WalkState {
            next_scope: st.next_scope,
            next_binding: st.next_binding + 1,
            scopes: st.scopes.update(
                st.scopes.len() - 1,
                (st.scopes.last().0, st.scopes.last().1.push((name, st.next_binding as usize))),
            ),
            names: st.names.push(name),
            labels: st.labels,
            gotos: st.gotos,
        }
    }
}

/// Recording a label: a label seen before loses its position.
pub open spec fn walk_record(st: WalkState, label: Seq<char>) -> WalkState {
    WalkState {
        next_scope: st.next_scope,
        next_binding: st.next_binding,
        scopes: st.scopes,
        names: st.names,
        labels: if exists|k: int| 0 <= k < st.labels.len() && (#[trigger] st.labels[k]).0 == label {
            Seq::new(
                st.labels.len(),
                |k: int|
                    if st.labels[k].0 == label {
                        (label, None::<(Seq<usize>, Seq<usize>)>)
                    } else {
                        st.labels[k]
                    },
            )
        } else {
            st.labels.push((label, Some(model_position(st))))
        },
        gotos: st.gotos,
    }
}

/// Recording a goto where the walk stands.
pub open spec fn walk_goto(st: WalkState, label: Seq<char>, source: SyntaxSource) -> WalkState {
    WalkState {
        next_scope: st.next_scope,
        next_binding: st.next_binding,
        scopes: st.scopes,
        names: st.names,
        labels: st.labels,
        gotos: st.gotos.push((label, source, model_position(st))),
    }
}

/// The bindings of a scope as plain values.
pub open spec fn bindings_model(bindings: Seq<(String, usize)>) -> Seq<(Seq<char>, usize)> {
    bindings.map_values(|b: (String, usize)| (b.0@, b.1))
}

/// Open scopes as plain values.
pub open spec fn scopes_model(scopes: Seq<Scope>) -> Seq<(usize, Seq<(Seq<char>, usize)>)> {
    scopes.map_values(|s: Scope| (s.id, bindings_model(s.bindings@)))
}

proof fn lemma_model_visible(scopes: Seq<Scope>)
    ensures
        model_visible(scopes_model(scopes)) == visible_bindings(scopes),
        model_path(scopes_model(scopes)) == scope_path(scopes),
    decreases scopes.len(),
{
    let m = scopes_model(scopes);
    assert(model_path(m) =~= scope_path(scopes));
    if scopes.len() > 0 {
        lemma_model_visible(scopes.drop_last());
        assert(m.drop_last() =~= scopes_model(scopes.drop_last()));
        assert(m.last().1.map_values(|b: (Seq<char>, usize)| b.1) =~= scope_binding_ids(scopes.last()));
    }
}

/// Declaring the name of an identifier expression; other expressions
/// declare nothing.
pub open spec fn walk_declare_ident(st: WalkState, e: ExprSyntax) -> WalkState {
    match e.kind {
        ExprSyntaxKind::Ident(n) => walk_declare(st, n.name@),
        _ => st,
    }
}

pub open spec fn walk_declare_idents(st: WalkState, es: Seq<ExprSyntax>) -> WalkState
    decreases es.len(),
{
    if es.len() == 0 {
        st
    } else {
        walk_declare_ident(walk_declare_idents(st, es.drop_last()), es.last())
    }
}

pub open spec fn walk_declare_names(st: WalkState, names: Seq<IdentSyntax>) -> WalkState
    decreases names.len(),
{
    if names.len() == 0 {
        st
    } else {
        walk_declare(walk_declare_names(st, names.drop_last()), names.last().name@)
    }
}

pub open spec fn walk_declare_specs(st: WalkState, specs: Seq<SpecSyntax>) -> WalkState
    decreases specs.len(),
{
    if specs.len() == 0 {
        st
    } else {
        walk_declare_names(walk_declare_specs(st, specs.drop_last()), specs.last().names@)
    }
}

/// A `var` declaration declares its names; other declarations nothing.
pub open spec fn walk_decl(st: WalkState, d: DeclSyntax) -> WalkState {
    if d.token == Token::VAR {
        walk_declare_specs(st, d.specs@)
    } else {
        st
    }
}

pub open spec fn walk_record_opt(st: WalkState, label: Option<IdentSyntax>) -> WalkState {
    match label {
        Some(l) => walk_record(st, l.name@),
        None => st,
    }
}

pub open spec fn walk_declare_opt_ident(st: WalkState, e: Option<ExprSyntax>) -> WalkState {
    match e {
        Some(e) => walk_declare_ident(st, e),
        None => st,
    }
}

pub open spec fn walk_declare_opt_name(st: WalkState, name: Option<IdentSyntax>) -> WalkState {
    match name {
        Some(n) => walk_declare(st, n.name@),
        None => st,
    }
}

/// The walk over a statement: the scopes it opens and closes, the
/// variables it declares, the labels and gotos it records.
pub open spec fn walk_stmt_model(st: WalkState, s: StmtSyntax) -> WalkState
    decreases s, 0int,
{
    match s.kind {
        StmtSyntaxKind::Block(b) => walk_block_model(st, b, true),
        StmtSyntaxKind::Decl(d) => walk_decl(st, d),
        StmtSyntaxKind::Assign { left, token, .. } => if token == Token::DEFINE {
            walk_declare_idents(st, left@)
        } else {
            st
        },
        StmtSyntaxKind::If { init, then_block, else_branch, .. } => walk_pop(
            walk_opt_model(walk_block_model(walk_opt_model(walk_push(st), init), then_block, true), else_branch),
        ),
        StmtSyntaxKind::For { label, init, post, body, .. } => walk_pop(
            walk_opt_model(
                walk_block_model(walk_opt_model(walk_push(walk_record_opt(st, label)), init), body, true),
                post,
            ),
        ),
        StmtSyntaxKind::Range { label, key, value, token, body, .. } => {
            let inner = walk_push(walk_record_opt(st, label));
            let declared = if token == Some(Token::DEFINE) {
                walk_declare_opt_ident(walk_declare_opt_ident(inner, key), value)
            } else {
                inner
            };
            walk_pop(walk_block_model(declared, body, true))
        },
        StmtSyntaxKind::Switch { init, cases, .. } => walk_pop(
            walk_cases_model(walk_opt_model(walk_push(st), init), cases@),
        ),
        StmtSyntaxKind::TypeSwitch { init, binding, cases, .. } => walk_pop(
            walk_type_cases_model(walk_opt_model(walk_push(st), init), binding, cases@),
        ),
        StmtSyntaxKind::Select { cases } => walk_select_model(st, cases@),
        StmtSyntaxKind::Labeled { label, statement } => walk_stmt_model(walk_record(st, label.name@), *statement),
        StmtSyntaxKind::Branch { token, label } => match label {
            Some(l) => if token == Token::GOTO {
                walk_goto(st, l.name@, s.source)
            } else {
                st
            },
            None => st,
        },
        _ => st,
    }
}

pub open spec fn walk_opt_model(st: WalkState, s: Option<Box<StmtSyntax>>) -> WalkState
    decreases s, 1int,
{
    match s {
        Some(b) => walk_stmt_model(st, *b),
        None => st,
    }
}

/// The walk over a block, in a scope of its own when `introduce_scope`
/// holds.
pub open spec fn walk_block_model(st: WalkState, b: BlockSyntax, introduce_scope: bool) -> WalkState
    decreases b, 1int,
{
    if introduce_scope {
        walk_pop(walk_stmts_model(walk_push(st), b.statements@))
    } else {
        walk_stmts_model(st, b.statements@)
    }
}

pub open spec fn walk_stmts_model(st: WalkState, s: Seq<StmtSyntax>) -> WalkState
    decreases s, 0int,
{
    if s.len() == 0 {
        st
    } else {
        walk_stmt_model(walk_stmts_model(st, s.drop_last()), s.last())
    }
}

/// Whether a statement is an assignment with `=` or an operator-assignment,
/// as opposed to a short variable declaration `:=`.
pub open spec fn is_plain_assignment(s: StmtSyntax) -> bool {
    s.kind matches StmtSyntaxKind::Assign { token, .. } && token != Token::DEFINE
}

/// A plain assignment declares nothing: the walk over it leaves every
/// scope, binding, label and goto as it was.
pub proof fn lemma_plain_assignment_declares_nothing(st: WalkState, s: StmtSyntax)
    requires
        is_plain_assignment(s),
    ensures
        walk_stmt_model(st, s) == st,
{
}

/// Plain assignments never change the goto analysis: a block walks to the
/// same state with or without a plain assignment inserted anywhere in it,
/// so a goto over `x = 1` is judged as if the assignment were absent.
pub proof fn lemma_plain_assignment_is_transparent(
    st: WalkState,
    before: Seq<StmtSyntax>,
    assignment: StmtSyntax,
    after: Seq<StmtSyntax>,
)
    requires
        is_plain_assignment(assignment),
    ensures
        walk_stmts_model(st, before + seq![assignment] + after) == walk_stmts_model(st, before + after),
    decreases after.len(),
{
    let with = before + seq![assignment] + after;
    let without = before + after;
    if after.len() == 0 {
        assert(with.drop_last() =~= without);
        assert(with.last() == assignment);
        assert(walk_stmts_model(st, with) == walk_stmt_model(walk_stmts_model(st, with.drop_last()), assignment));
        lemma_plain_assignment_declares_nothing(walk_stmts_model(st, without), assignment);
    } else {
        lemma_plain_assignment_is_transparent(st, before, assignment, after.drop_last());
        assert(with.drop_last() =~= before + seq![assignment] + after.drop_last());
        assert(without.drop_last() =~= before + after.drop_last());
        assert(with.last() == after.last());
        assert(without.last() == after.last());
        assert(walk_stmts_model(st, with) == walk_stmt_model(walk_stmts_model(st, with.drop_last()), with.last()));
        assert(walk_stmts_model(st, without) == walk_stmt_model(
            walk_stmts_model(st, without.drop_last()),
            without.last(),
        ));
    }
}

pub open spec fn walk_cases_model(st: WalkState, s: Seq<CaseClauseSyntax>) -> WalkState
    decreases s, 0int,
{
    if s.len() == 0 {
        st
    } else {
        walk_block_model(walk_cases_model(st, s.drop_last()), s.last().body, true)
    }
}

/// The cases of a type switch: each in a scope of its own, where the
/// switch's binding is declared.
pub open spec fn walk_type_cases_model(
    st: WalkState,
    binding: Option<IdentSyntax>,
    s: Seq<CaseClauseSyntax>,
) -> WalkState
    decreases s, 0int,
{
    if s.len() == 0 {
        st
    } else {
        walk_pop(
            walk_block_model(
                walk_declare_opt_name(walk_push(walk_type_cases_model(st, binding, s.drop_last())), binding),
                s.last().body,
                false,
            ),
        )
    }
}

/// The cases of a select: each in a scope of its own, holding its
/// communication and its body.
pub open spec fn walk_select_model(st: WalkState, s: Seq<SelectCaseSyntax>) -> WalkState
    decreases s, 0int,
{
    if s.len() == 0 {
        st
    } else {
        walk_pop(
            walk_block_model(
                walk_opt_model(walk_push(walk_select_model(st, s.drop_last())), s.last().communication),
                s.last().body,
                false,
            ),
        )
    }
}

/// A position as plain values.
pub open spec fn position_model(p: Option<Position>) -> Option<(Seq<usize>, Seq<usize>)> {
    match p {
        Some(p) => Some((p.scope_path@, p.bindings@)),
        None => None,
    }
}

/// The label and source of each recorded goto.
pub open spec fn goto_sites(gotos: Seq<GotoUse>) -> Seq<(Seq<char>, SyntaxSource)> {
    gotos.map_values(|g: GotoUse| (g.label@, g.source))
}

/// The names of the recorded labels.
pub open spec fn label_names(labels: Seq<LabelEntry>) -> Set<Seq<char>> {
    Set::new(|n: Seq<char>| exists|k: int| 0 <= k < labels.len() && (#[trigger] labels[k]).name@ == n)
}

impl Analyzer {
    pub open spec fn wf(&self) -> bool {
        &&& self.scopes@.len() >= 1
        &&& self.binding_names@.len() == self.next_binding
        &&& forall|i: int, k: int|
            0 <= i < self.scopes@.len() && 0 <= k < self.scopes@[i].bindings@.len()
                ==> (#[trigger] self.scopes@[i].bindings@[k]).1 < self.next_binding
        &&& forall|i: int, k1: int, k2: int|
            0 <= i < self.scopes@.len() && 0 <= k1 < k2 < self.scopes@[i].bindings@.len()
                ==> (#[trigger] self.scopes@[i].bindings@[k1]).0@ != (#[trigger] self.scopes@[i].bindings@[k2]).0@
        &&& forall|i: int, j: int|
            0 <= i < j < self.labels@.len() ==> (#[trigger] self.labels@[i]).name@
                != (#[trigger] self.labels@[j]).name@
    }

    /// The state of the walk as plain values.
    pub open spec fn model(&self) -> WalkState {
        WalkState {
            next_scope: self.next_scope as int,
            next_binding: self.next_binding as int,
            scopes: scopes_model(self.scopes@),
            names: self.binding_names@.map_values(|n: String| n@),
            labels: self.labels@.map_values(|l: LabelEntry| (l.name@, position_model(l.position))),
            gotos: self.gotos@.map_values(
                |g: GotoUse| (g.label@, g.source, (g.position.scope_path@, g.position.bindings@)),
            ),
        }
    }

    /// The position of the statement being walked.
    pub open spec fn spec_position(&self) -> (Seq<usize>, Seq<usize>) {
        (scope_path(self.scopes@), visible_bindings(self.scopes@))
    }

    /// What a walk keeps: the scope stack has its depth and identities,
    /// every scope but the innermost is untouched, the innermost only gains
    /// bindings, gotos are only appended and the counters only grow.
    pub open spec fn walk_keeps(&self, old: Analyzer) -> bool {
        &&& self.scopes@.len() == old.scopes@.len()
        &&& scope_path(self.scopes@) == scope_path(old.scopes@)
        &&& forall|i: int| 0 <= i < self.scopes@.len() - 1 ==> self.scopes@[i] == old.scopes@[i]
        &&& self.scopes@.last().bindings@.take(old.scopes@.last().bindings@.len() as int)
            == old.scopes@.last().bindings@
        &&& old.scopes@.last().bindings@.len() <= self.scopes@.last().bindings@.len()
        &&& self.gotos@.len() >= old.gotos@.len()
        &&& self.gotos@.take(old.gotos@.len() as int) == old.gotos@
        &&& self.next_scope >= old.next_scope
        &&& self.next_binding >= old.next_binding
    }

    /// Since `old`, the walk recorded the gotos `gotos`, in order, and only
    /// labels named in `labels`.
    pub open spec fn collects(&self, old: Analyzer, gotos: Seq<(Seq<char>, SyntaxSource)>, labels: Set<Seq<char>>) -> bool {
        &&& goto_sites(self.gotos@) == goto_sites(old.gotos@) + gotos
        &&& label_names(self.labels@).subset_of(label_names(old.labels@).union(labels))
    }

    /// The walk used at most `w` scopes and bindings.
    pub open spec fn within(&self, old: Analyzer, w: nat) -> bool {
        &&& self.next_scope <= old.next_scope + w
        &&& self.next_binding <= old.next_binding + w
    }

    /// There is room for `w` more scopes and bindings.
    pub open spec fn room(&self, w: nat) -> bool {
        &&& self.next_scope + w <= usize::MAX
        &&& self.next_binding + w <= usize::MAX
    }
}

proof fn lemma_walk_keeps_refl(a: Analyzer)
    ensures
        a.walk_keeps(a),
{
    assert(a.scopes@.last().bindings@.take(a.scopes@.last().bindings@.len() as int) =~= a.scopes@.last().bindings@);
    assert(a.gotos@.take(a.gotos@.len() as int) =~= a.gotos@);
}

proof fn lemma_walk_keeps_trans(a: Analyzer, b: Analyzer, c: Analyzer)
    requires
        b.walk_keeps(a),
        c.walk_keeps(b),
    ensures
        c.walk_keeps(a),
{
    let ta = a.scopes@.last().bindings@;
    let tb = b.scopes@.last().bindings@;
    let tc = c.scopes@.last().bindings@;
    assert(tc.take(ta.len() as int) =~= tb.take(ta.len() as int));
    assert(c.gotos@.take(a.gotos@.len() as int) =~= b.gotos@.take(a.gotos@.len() as int));
}

proof fn lemma_collects_nothing(a: Analyzer, b: Analyzer)
    requires
        b.gotos@ == a.gotos@,
        b.labels@ == a.labels@,
    ensures
        b.collects(a, Seq::empty(), Set::empty()),
{
    assert(goto_sites(a.gotos@) + Seq::<(Seq<char>, SyntaxSource)>::empty() =~= goto_sites(a.gotos@));
}

proof fn lemma_collects_trans(
    a: Analyzer,
    b: Analyzer,
    c: Analyzer,
    g1: Seq<(Seq<char>, SyntaxSource)>,
    l1: Set<Seq<char>>,
    g2: Seq<(Seq<char>, SyntaxSource)>,
    l2: Set<Seq<char>>,
)
    requires
        b.collects(a, g1, l1),
        c.collects(b, g2, l2),
    ensures
        c.collects(a, g1 + g2, l1.union(l2)),
{
    assert(goto_sites(a.gotos@) + g1 + g2 =~= goto_sites(a.gotos@) + (g1 + g2));
}

proof fn lemma_collects_more_labels(
    a: Analyzer,
    b: Analyzer,
    g: Seq<(Seq<char>, SyntaxSource)>,
    l1: Set<Seq<char>>,
    l2: Set<Seq<char>>,
)
    requires
        b.collects(a, g, l1),
        l1.subset_of(l2),
    ensures
        b.collects(a, g, l2),
{
}

impl Analyzer {
    /// Opens a new innermost scope.
    pub fn push_scope(&mut self)
        requires
            old(self).wf(),
            old(self).next_scope < usize::MAX,
        ensures
            final(self).wf(),
            final(self).scopes@.len() == old(self).scopes@.len() + 1,
            final(self).scopes@.drop_last() == old(self).scopes@,
            final(self).scopes@.last().id == old(self).next_scope,
            final(self).scopes@.last().bindings@.len() == 0,
            final(self).next_scope == old(self).next_scope + 1,
            final(self).next_binding == old(self).next_binding,
            final(self).binding_names@ == old(self).binding_names@,
            final(self).labels@ == old(self).labels@,
            final(self).gotos@ == old(self).gotos@,
            final(self).model() == walk_push(old(self).model()),
    {
        let id = self.next_scope;
        self.next_scope = self.next_scope + 1;
        self.scopes.push(Scope { id, bindings: Vec::new() });
        proof {
            assert(self.scopes@.drop_last() =~= old(self).scopes@);
            assert(bindings_model(self.scopes@.last().bindings@) =~= Seq::empty());
            assert(scopes_model(self.scopes@) =~= scopes_model(old(self).scopes@).push((id, Seq::empty())));
        }
    }

    /// Closes the innermost scope; the function scope stays open.
    pub fn pop_scope(&mut self)
        requires
            old(self).wf(),
            old(self).scopes@.len() >= 2,
        ensures
            final(self).wf(),
            final(self).scopes@ == old(self).scopes@.drop_last(),
            final(self).next_scope == old(self).next_scope,
            final(self).next_binding == old(self).next_binding,
            final(self).binding_names@ == old(self).binding_names@,
            final(self).labels@ == old(self).labels@,
            final(self).gotos@ == old(self).gotos@,
            final(self).model() == walk_pop(old(self).model()),
    {
        let popped = self.scopes.pop();
        proof {
            assert(self.scopes@ =~= old(self).scopes@.drop_last());
            assert(scopes_model(self.scopes@) =~= scopes_model(old(self).scopes@).drop_last());
        }
    }

    /// Declares a variable in the innermost scope: the blank identifier and
    /// a name already declared there are ignored.
    pub fn declare(&mut self, name: &str)
        requires
            old(self).wf(),
            old(self).next_binding < usize::MAX,
        ensures
            final(self).wf(),
            final(self).next_scope == old(self).next_scope,
            final(self).labels@ == old(self).labels@,
            final(self).gotos@ == old(self).gotos@,
            final(self).scopes@.len() == old(self).scopes@.len(),
            forall|i: int| 0 <= i < old(self).scopes@.len() - 1 ==> final(self).scopes@[i] == old(self).scopes@[i],
            final(self).scopes@.last().id == old(self).scopes@.last().id,
            final(self).walk_keeps(*old(self)),
            final(self).within(*old(self), 1),
            (name@ == "_"@ || scope_has(old(self).scopes@.last(), name@)) ==> final(self).scopes@.last()
                == old(self).scopes@.last() && final(self).next_binding == old(self).next_binding
                && final(self).binding_names@ == old(self).binding_names@,
            !(name@ == "_"@ || scope_has(old(self).scopes@.last(), name@)) ==> final(self).scopes@.last().bindings@.len()
                == old(self).scopes@.last().bindings@.len() + 1 && final(self).scopes@.last().bindings@.drop_last()
                == old(self).scopes@.last().bindings@ && final(self).scopes@.last().bindings@.last().0@ == name@
                && final(self).scopes@.last().bindings@.last().1 == old(self).next_binding
                && final(self).next_binding == old(self).next_binding + 1 && final(self).binding_names@
                == old(self).binding_names@.push(final(self).binding_names@.last())
                && final(self).binding_names@.last()@ == name@,
            final(self).model() == walk_declare(old(self).model(), name@),
    {
        proof {
            let m = old(self).model();
            let last = old(self).scopes@.last();
            assert(m.scopes.last() == (last.id, bindings_model(last.bindings@)));
            assert(innermost_has(m, name@) <==> scope_has(last, name@)) by {
                if innermost_has(m, name@) {
                    let k = choose|k: int|
                        0 <= k < m.scopes.last().1.len() && (#[trigger] m.scopes.last().1[k]).0 == name@;
                    assert(last.bindings@[k].0@ == name@);
                }
                if scope_has(last, name@) {
                    let k = choose|k: int| 0 <= k < last.bindings@.len() && (#[trigger] last.bindings@[k]).0@ == name@;
                    assert(m.scopes.last().1[k].0 == name@);
                }
            }
        }
        if String::from_str(name) == String::from_str("_") {
            proof {
                lemma_walk_keeps_refl(*self);
                reveal_strlit("_");
            }
            return;
        }
        let last = self.scopes.len() - 1;
        let mut k: usize = 0;
        while k < self.scopes[last].bindings.len()
            invariant
                last == self.scopes@.len() - 1,
                self == old(self),
                old(self).wf(),
                k <= self.scopes@[last as int].bindings@.len(),
                forall|j: int| 0 <= j < k ==> (#[trigger] self.scopes@[last as int].bindings@[j]).0@ != name@,
            decreases self.scopes@[last as int].bindings@.len() - k,
        {
            if self.scopes[last].bindings[k].0 == String::from_str(name) {
                proof {
                    lemma_walk_keeps_refl(*self);
                    let m = old(self).model();
                    assert(m.scopes.last() == (
                        old(self).scopes@.last().id,
                        bindings_model(old(self).scopes@.last().bindings@),
                    ));
                    assert(m.scopes.last().1[k as int].0 == name@);
                    assert(innermost_has(m, name@));
                }
                return;
            }
            k += 1;
        }
        let binding = self.next_binding;
        self.next_binding = self.next_binding + 1;
        let mut scope = self.scopes.pop().unwrap();
        scope.bindings.push((String::from_str(name), binding));
        self.scopes.push(scope);
        self.binding_names.push(String::from_str(name));
        proof {
            let m = old(self).model();
            let last = old(self).scopes@.last();
            assert(bindings_model(self.scopes@.last().bindings@) =~= bindings_model(last.bindings@).push((name@, binding)));
            assert(scopes_model(self.scopes@) =~= m.scopes.update(
                m.scopes.len() - 1,
                (m.scopes.last().0, m.scopes.last().1.push((name@, binding))),
            ));
            assert(self.binding_names@.map_values(|n: String| n@) =~= m.names.push(name@));
            assert(self.scopes@.last().bindings@.drop_last() =~= old(self).scopes@.last().bindings@);
            assert forall|i: int| 0 <= i < old(self).scopes@.len() - 1 implies self.scopes@[i] == old(self).scopes@[i] by {}
            assert(self.scopes@.last().bindings@.take(old(self).scopes@.last().bindings@.len() as int)
                =~= old(self).scopes@.last().bindings@);
            assert(self.gotos@.take(old(self).gotos@.len() as int) =~= old(self).gotos@);
            assert(scope_path(self.scopes@) =~= scope_path(old(self).scopes@));
        }
    }

    /// The position of the statement being walked.
    pub fn position(&self) -> (r: Position)
        ensures
            r.scope_path@ == self.spec_position().0,
            r.bindings@ == self.spec_position().1,
    {
        let mut path: Vec<usize> = Vec::new();
        let mut bindings: Vec<usize> = Vec::new();
        let mut i: usize = 0;
        while i < self.scopes.len()
            invariant
                i <= self.scopes@.len(),
                path@ == scope_path(self.scopes@.take(i as int)),
                bindings@ == visible_bindings(self.scopes@.take(i as int)),
            decreases self.scopes@.len() - i,
        {
            let scope = &self.scopes[i];
            path.push(scope.id);
            let mut k: usize = 0;
            let ghost before = bindings@;
            while k < scope.bindings.len()
                invariant
                    k <= scope.bindings@.len(),
                    bindings@ == before + scope_binding_ids(*scope).take(k as int),
                decreases scope.bindings@.len() - k,
            {
                bindings.push(scope.bindings[k].1);
                k += 1;
                assert(bindings@ =~= before + scope_binding_ids(*scope).take(k as int));
            }
            proof {
                let next = self.scopes@.take(i + 1);
                assert(next.drop_last() =~= self.scopes@.take(i as int));
                assert(scope_binding_ids(*scope).take(k as int) =~= scope_binding_ids(*scope));
                assert(path@ =~= scope_path(next));
            }
            i += 1;
        }
        proof {
            assert(self.scopes@.take(i as int) =~= self.scopes@);
        }
        Position { scope_path: path, bindings }
    }

    /// Records where a label stands; a label seen twice loses its position.
    pub fn record_label(&mut self, label: &str)
        requires
            old(self).wf(),
        ensures
            final(self).wf(),
            final(self).next_scope == old(self).next_scope,
            final(self).next_binding == old(self).next_binding,
            final(self).scopes@ == old(self).scopes@,
            final(self).binding_names@ == old(self).binding_names@,
            final(self).gotos@ == old(self).gotos@,
            (exists|k: int| 0 <= k < old(self).labels@.len() && (#[trigger] old(self).labels@[k]).name@ == label@)
                ==> (final(self).labels@.len() == old(self).labels@.len() && forall|k: int|
                0 <= k < old(self).labels@.len() ==> if (#[trigger] old(self).labels@[k]).name@ == label@ {
                    final(self).labels@[k].name@ == label@ && final(self).labels@[k].position is None
                } else {
                    final(self).labels@[k] == old(self).labels@[k]
                }),
            !(exists|k: int| 0 <= k < old(self).labels@.len() && (#[trigger] old(self).labels@[k]).name@ == label@)
                ==> (final(self).labels@.drop_last() == old(self).labels@ && final(self).labels@.last().name@
                == label@ && (final(self).labels@.last().position matches Some(p) && p.scope_path@
                == old(self).spec_position().0 && p.bindings@ == old(self).spec_position().1)),
            final(self).collects(*old(self), Seq::empty(), set![label@]),
            final(self).model() == walk_record(old(self).model(), label@),
    {
        let position = self.position();
        let mut k: usize = 0;
        while k < self.labels.len()
            invariant
                self == old(self),
                old(self).wf(),
                k <= self.labels@.len(),
                forall|j: int| 0 <= j < k ==> (#[trigger] self.labels@[j]).name@ != label@,
            decreases self.labels@.len() - k,
        {
            if self.labels[k].name == String::from_str(label) {
                let name = String::from_str(label);
                self.labels.set(k, LabelEntry { name, position: None });
                proof {
                    assert forall|j: int| 0 <= j < old(self).labels@.len() && j != k implies (#[trigger] old(self).labels@[j]).name@ != label@ by {
                        if j < k {
                        } else {
                            assert(old(self).labels@[k as int].name@ != old(self).labels@[j].name@);
                        }
                    }
                    lemma_collects_nothing(*old(self), *old(self));
                    assert forall|n: Seq<char>| label_names(self.labels@).contains(n) implies label_names(
                        old(self).labels@,
                    ).contains(n) by {
                        let j = choose|j: int| 0 <= j < self.labels@.len() && (#[trigger] self.labels@[j]).name@ == n;
                        assert(old(self).labels@[j].name@ == n);
                    }
                    let m = old(self).model();
                    assert(m.labels[k as int].0 == label@);
                    assert(self.model().labels =~= walk_record(m, label@).labels);
                }
                return;
            }
            k += 1;
        }
        self.labels.push(LabelEntry { name: String::from_str(label), position: Some(position) });
        proof {
            assert(self.labels@.drop_last() =~= old(self).labels@);
            lemma_collects_nothing(*old(self), *old(self));
            assert forall|n: Seq<char>| label_names(self.labels@).contains(n) implies label_names(
                old(self).labels@,
            ).union(set![label@]).contains(n) by {
                let j = choose|j: int| 0 <= j < self.labels@.len() && (#[trigger] self.labels@[j]).name@ == n;
                if j < old(self).labels@.len() {
                    assert(old(self).labels@[j].name@ == n);
                }
            }
            let m = old(self).model();
            lemma_model_visible(old(self).scopes@);
            assert(!(exists|j: int| 0 <= j < m.labels.len() && (#[trigger] m.labels[j]).0 == label@)) by {
                if exists|j: int| 0 <= j < m.labels.len() && (#[trigger] m.labels[j]).0 == label@ {
                    let j = choose|j: int| 0 <= j < m.labels.len() && (#[trigger] m.labels[j]).0 == label@;
                    assert(old(self).labels@[j].name@ == label@);
                }
            }
            assert(self.model().labels =~= m.labels.push((label@, Some(model_position(m)))));
        }
    }
}

/// A walk inside a scope that was opened and then closed leaves the scope
/// stack as it was.
proof fn lemma_push_walk_pop(a: Analyzer, b: Analyzer, c: Analyzer, d: Analyzer)
    requires
        b.scopes@.len() == a.scopes@.len() + 1,
        b.scopes@.drop_last() == a.scopes@,
        b.gotos@ == a.gotos@,
        b.next_scope >= a.next_scope,
        b.next_binding == a.next_binding,
        c.walk_keeps(b),
        d.scopes@ == c.scopes@.drop_last(),
        d.gotos@ == c.gotos@,
        d.next_scope == c.next_scope,
        d.next_binding == c.next_binding,
    ensures
        d.walk_keeps(a),
        d.scopes@ == a.scopes@,
{
    assert forall|i: int| 0 <= i < a.scopes@.len() implies d.scopes@[i] == a.scopes@[i] by {
        assert(b.scopes@.drop_last()[i] == b.scopes@[i]);
    }
    assert(d.scopes@ =~= a.scopes@);
    lemma_walk_keeps_refl(a);
    assert(d.gotos@.take(a.gotos@.len() as int) =~= a.gotos@);
}

impl Analyzer {
    /// Declares the variables of a `var` declaration in the innermost scope.
    pub fn declare_local_variables(&mut self, declaration: &DeclSyntax)
        requires
            old(self).wf(),
            old(self).room(specs_weight(declaration.specs@)),
        ensures
            final(self).wf(),
            final(self).walk_keeps(*old(self)),
            final(self).within(*old(self), specs_weight(declaration.specs@)),
            final(self).gotos@ == old(self).gotos@,
            final(self).labels@ == old(self).labels@,
            final(self).model() == walk_decl(old(self).model(), *declaration),
    {
        proof {
            lemma_walk_keeps_refl(*self);
        }
        if declaration.token != Token::VAR {
            return;
        }
        let ghost a = *self;
        proof {
            assert(declaration.specs@.take(0) =~= Seq::<SpecSyntax>::empty());
        }
        let mut i: usize = 0;
        while i < declaration.specs.len()
            invariant
                a.wf(),
                self.wf(),
                self.walk_keeps(a),
                self.gotos@ == a.gotos@,
                self.labels@ == a.labels@,
                self.model() == walk_declare_specs(a.model(), declaration.specs@.take(i as int)),
                i <= declaration.specs@.len(),
                self.within(a, specs_weight(declaration.specs@.take(i as int))),
                a.room(specs_weight(declaration.specs@)),
            decreases declaration.specs@.len() - i,
        {
            proof {
                lemma_specs_weight_prefix(declaration.specs@, i as int);
                lemma_specs_weight_prefix(declaration.specs@, i + 1);
            }
            let spec = &declaration.specs[i];
            let ghost start = *self;
            let mut j: usize = 0;
            proof {
                lemma_walk_keeps_refl(start);
                assert(spec.names@.take(0) =~= Seq::<IdentSyntax>::empty());
            }
            while j < spec.names.len()
                invariant
                    a.wf(),
                    start.wf(),
                    self.wf(),
                    self.walk_keeps(start),
                    start.walk_keeps(a),
                    self.gotos@ == a.gotos@,
                    self.labels@ == a.labels@,
                    self.model() == walk_declare_names(start.model(), spec.names@.take(j as int)),
                    j <= spec.names@.len(),
                    self.within(start, j as nat),
                    start.within(a, specs_weight(declaration.specs@.take(i as int))),
                    specs_weight(declaration.specs@.take(i as int)) + spec.names@.len() <= specs_weight(
                        declaration.specs@,
                    ),
                    a.room(specs_weight(declaration.specs@)),
                decreases spec.names@.len() - j,
            {
                let ghost before = *self;
                self.declare(spec.names[j].name.as_str());
                proof {
                    lemma_walk_keeps_trans(start, before, *self);
                    assert(spec.names@.take(j + 1).drop_last() =~= spec.names@.take(j as int));
                    assert(spec.names@.take(j + 1).last() == spec.names@[j as int]);
                }
                j += 1;
            }
            proof {
                lemma_walk_keeps_trans(a, start, *self);
                assert(spec.names@.take(j as int) =~= spec.names@);
                let specs = declaration.specs@;
                assert(specs.take(i + 1).drop_last() =~= specs.take(i as int));
                assert(specs.take(i + 1).last() == specs[i as int]);
            }
            i += 1;
        }
        proof {
            assert(declaration.specs@.take(i as int) =~= declaration.specs@);
        }
    }
}

impl Analyzer {
    /// Declares the name of an identifier expression in the innermost scope.
    fn declare_ident(&mut self, expression: &ExprSyntax)
        requires
            old(self).wf(),
            old(self).room(1),
        ensures
            final(self).wf(),
            final(self).walk_keeps(*old(self)),
            final(self).within(*old(self), 1),
            final(self).gotos@ == old(self).gotos@,
            final(self).labels@ == old(self).labels@,
            final(self).model() == walk_declare_ident(old(self).model(), *expression),
    {
        if let ExprSyntaxKind::Ident(name) = &expression.kind {
            self.declare(name.name.as_str());
        } else {
            proof {
                lemma_walk_keeps_refl(*self);
            }
        }
    }

    /// Walks an optional statement.
    fn walk_optional(&mut self, statement: &Option<Box<StmtSyntax>>)
        requires
            old(self).wf(),
            old(self).room(opt_weight(*statement)),
        ensures
            final(self).wf(),
            final(self).walk_keeps(*old(self)),
            final(self).within(*old(self), opt_weight(*statement)),
            final(self).collects(*old(self), opt_gotos(*statement), opt_labels(*statement)),
            final(self).model() == walk_opt_model(old(self).model(), *statement),
        decreases *statement, 1int,
    {
        match statement {
            Some(s) => self.walk_stmt(s),
            None => {
                proof {
                    lemma_walk_keeps_refl(*self);
                    lemma_collects_nothing(*self, *self);
                }
            },
        }
    }

    /// Walks the statements of a block, in a scope of its own when
    /// `introduce_scope` holds.
    pub fn walk_block(&mut self, block: &BlockSyntax, introduce_scope: bool)
        requires
            old(self).wf(),
            old(self).room(block_weight(*block)),
        ensures
            final(self).wf(),
            final(self).walk_keeps(*old(self)),
            final(self).within(*old(self), block_weight(*block)),
            introduce_scope ==> final(self).scopes@ == old(self).scopes@,
            final(self).collects(*old(self), block_gotos(*block), block_labels(*block)),
            final(self).model() == walk_block_model(old(self).model(), *block, introduce_scope),
        decreases *block, 1int,
    {
        let ghost a = *self;
        if introduce_scope {
            self.push_scope();
        }
        let ghost b = *self;
        proof {
            lemma_walk_keeps_refl(b);
            lemma_collects_nothing(b, b);
            assert(block.statements@.take(0) =~= Seq::<StmtSyntax>::empty());
        }
        let mut i: usize = 0;
        while i < block.statements.len()
            invariant
                b.wf(),
                self.wf(),
                self.walk_keeps(b),
                i <= block.statements@.len(),
                self.within(b, stmts_weight(block.statements@.take(i as int))),
                b.room(stmts_weight(block.statements@)),
                self.collects(
                    b,
                    stmts_gotos(block.statements@.take(i as int)),
                    stmts_labels(block.statements@.take(i as int)),
                ),
                self.model() == walk_stmts_model(b.model(), block.statements@.take(i as int)),
            decreases block.statements@.len() - i,
        {
            proof {
                lemma_stmts_weight_prefix(block.statements@, i as int);
                lemma_stmts_weight_prefix(block.statements@, i + 1);
            }
            let ghost before = *self;
            self.walk_stmt(&block.statements[i]);
            proof {
                lemma_walk_keeps_trans(b, before, *self);
                let s = block.statements@;
                lemma_collects_trans(
                    b,
                    before,
                    *self,
                    stmts_gotos(s.take(i as int)),
                    stmts_labels(s.take(i as int)),
                    stmt_gotos(s[i as int]),
                    stmt_labels(s[i as int]),
                );
                assert(s.take(i + 1).drop_last() =~= s.take(i as int));
                assert(s.take(i + 1).last() == s[i as int]);
            }
            i += 1;
        }
        proof {
            assert(block.statements@.take(i as int) =~= block.statements@);
        }
        if introduce_scope {
            let ghost c = *self;
            self.pop_scope();
            proof {
                lemma_push_walk_pop(a, b, c, *self);
            }
        }
    }

    /// Walks one statement: opens and closes the scopes it introduces,
    /// declares its variables, records its labels and its gotos.
    #[verifier::spinoff_prover]
    #[verifier::rlimit(60)]
    pub fn walk_stmt(&mut self, statement: &StmtSyntax)
        requires
            old(self).wf(),
            old(self).room(stmt_weight(*statement)),
        ensures
            final(self).wf(),
            final(self).walk_keeps(*old(self)),
            final(self).within(*old(self), stmt_weight(*statement)),
            final(self).collects(*old(self), stmt_gotos(*statement), stmt_labels(*statement)),
            final(self).model() == walk_stmt_model(old(self).model(), *statement),
        decreases *statement, 0int,
    {
        let ghost a = *self;
        proof {
            lemma_walk_keeps_refl(a);
            lemma_collects_nothing(a, a);
        }
        match &statement.kind {
            StmtSyntaxKind::Block(block) => self.walk_block(block, true),
            StmtSyntaxKind::Decl(declaration) => {
                self.declare_local_variables(declaration);
                proof {
                    lemma_collects_nothing(a, *self);
                }
            },
            StmtSyntaxKind::Assign { left, token, .. } => {
                if *token == Token::DEFINE {
                    proof {
                        assert(left@.take(0) =~= Seq::<ExprSyntax>::empty());
                    }
                    let mut i: usize = 0;
                    while i < left.len()
                        invariant
                            a.wf(),
                            self.wf(),
                            self.walk_keeps(a),
                            self.gotos@ == a.gotos@,
                            self.labels@ == a.labels@,
                            i <= left@.len(),
                            self.within(a, i as nat),
                            a.room(left@.len() + 1),
                            self.model() == walk_declare_idents(a.model(), left@.take(i as int)),
                        decreases left@.len() - i,
                    {
                        let ghost before = *self;
                        self.declare_ident(&left[i]);
                        proof {
                            lemma_walk_keeps_trans(a, before, *self);
                            assert(left@.take(i + 1).drop_last() =~= left@.take(i as int));
                            assert(left@.take(i + 1).last() == left@[i as int]);
                        }
                        i += 1;
                    }
                    proof {
                        assert(left@.take(i as int) =~= left@);
                    }
                }
                proof {
                    lemma_collects_nothing(a, *self);
                }
            },
            StmtSyntaxKind::If { init, then_block, else_branch, .. } => {
                self.push_scope();
                let ghost b = *self;
                self.walk_optional(init);
                let ghost b1 = *self;
                self.walk_block(then_block, true);
                proof {
                    lemma_walk_keeps_trans(b, b1, *self);
                    lemma_collects_trans(
                        b,
                        b1,
                        *self,
                        opt_gotos(*init),
                        opt_labels(*init),
                        block_gotos(*then_block),
                        block_labels(*then_block),
                    );
                }
                let ghost b2 = *self;
                self.walk_optional(else_branch);
                proof {
                    lemma_walk_keeps_trans(b, b2, *self);
                    lemma_collects_trans(
                        b,
                        b2,
                        *self,
                        opt_gotos(*init) + block_gotos(*then_block),
                        opt_labels(*init).union(block_labels(*then_block)),
                        opt_gotos(*else_branch),
                        opt_labels(*else_branch),
                    );
                }
                let ghost c = *self;
                self.pop_scope();
                proof {
                    lemma_push_walk_pop(a, b, c, *self);
                }
            },
            StmtSyntaxKind::For { label, init, post, body, .. } => {
                if let Some(label) = label {
                    self.record_label(label.name.as_str());
                }
                let ghost a1 = *self;
                proof {
                    lemma_walk_keeps_refl(a1);
                    assert(a1.walk_keeps(a));
                    assert(a1.collects(a, Seq::empty(), label_set(*label)));
                }
                self.push_scope();
                let ghost b = *self;
                self.walk_optional(init);
                let ghost b1 = *self;
                self.walk_block(body, true);
                proof {
                    lemma_walk_keeps_trans(b, b1, *self);
                    lemma_collects_trans(
                        b,
                        b1,
                        *self,
                        opt_gotos(*init),
                        opt_labels(*init),
                        block_gotos(*body),
                        block_labels(*body),
                    );
                }
                let ghost b2 = *self;
                self.walk_optional(post);
                proof {
                    lemma_walk_keeps_trans(b, b2, *self);
                    lemma_collects_trans(
                        b,
                        b2,
                        *self,
                        opt_gotos(*init) + block_gotos(*body),
                        opt_labels(*init).union(block_labels(*body)),
                        opt_gotos(*post),
                        opt_labels(*post),
                    );
                }
                let ghost c = *self;
                self.pop_scope();
                proof {
                    lemma_push_walk_pop(a1, b, c, *self);
                    lemma_walk_keeps_trans(a, a1, *self);
                    let g = opt_gotos(*init) + block_gotos(*body) + opt_gotos(*post);
                    let l = opt_labels(*init).union(block_labels(*body)).union(opt_labels(*post));
                    assert(self.collects(a1, g, l));
                    lemma_collects_trans(a, a1, *self, Seq::empty(), label_set(*label), g, l);
                    assert(Seq::<(Seq<char>, SyntaxSource)>::empty() + g =~= g);
                    lemma_collects_more_labels(a, *self, g, label_set(*label).union(l), stmt_labels(*statement));
                }
            },
            StmtSyntaxKind::Range { label, key, value, token, body, .. } => {
                if let Some(label) = label {
                    self.record_label(label.name.as_str());
                }
                let ghost a1 = *self;
                proof {
                    lemma_walk_keeps_refl(a1);
                    assert(a1.walk_keeps(a));
                    assert(a1.collects(a, Seq::empty(), label_set(*label)));
                }
                self.push_scope();
                let ghost b = *self;
                proof {
                    lemma_walk_keeps_refl(b);
                }
                if *token == Some(Token::DEFINE) {
                    if let Some(key) = key {
                        self.declare_ident(key);
                    }
                    let ghost b1 = *self;
                    proof {
                        lemma_walk_keeps_refl(b1);
                        lemma_walk_keeps_trans(b, b, b1);
                    }
                    if let Some(value) = value {
                        self.declare_ident(value);
                        proof {
                            lemma_walk_keeps_trans(b, b1, *self);
                        }
                    }
                }
                let ghost b2 = *self;
                assert(b2.gotos@ == b.gotos@ && b2.labels@ == b.labels@);
                self.walk_block(body, true);
                proof {
                    lemma_walk_keeps_trans(b, b2, *self);
                }
                let ghost c = *self;
                self.pop_scope();
                proof {
                    lemma_push_walk_pop(a1, b, c, *self);
                    lemma_walk_keeps_trans(a, a1, *self);
                    assert(self.collects(a1, block_gotos(*body), block_labels(*body)));
                    lemma_collects_trans(a, a1, *self, Seq::empty(), label_set(*label), block_gotos(*body), block_labels(*body));
                    assert(Seq::<(Seq<char>, SyntaxSource)>::empty() + block_gotos(*body) =~= block_gotos(*body));
                }
            },
            StmtSyntaxKind::Switch { init, cases, .. } => {
                self.push_scope();
                let ghost b = *self;
                self.walk_optional(init);
                let ghost b1 = *self;
                proof {
                    lemma_walk_keeps_refl(b1);
                    lemma_collects_nothing(b1, b1);
                    assert(cases@.take(0) =~= Seq::<CaseClauseSyntax>::empty());
                }
                let mut i: usize = 0;
                while i < cases.len()
                    invariant
                        b.wf(),
                        b1.wf(),
                        self.wf(),
                        b1.walk_keeps(b),
                        self.walk_keeps(b1),
                        self.scopes@ == b1.scopes@,
                        i <= cases@.len(),
                        self.within(b1, cases_weight(cases@.take(i as int))),
                        b1.room(cases_weight(cases@)),
                        self.collects(b1, cases_gotos(cases@.take(i as int)), cases_labels(cases@.take(i as int))),
                        self.model() == walk_cases_model(b1.model(), cases@.take(i as int)),
                        decreases_to!(*statement => *cases),
                    decreases cases@.len() - i,
                {
                    proof {
                        lemma_cases_weight_prefix(cases@, i as int);
                        lemma_cases_weight_prefix(cases@, i + 1);
                    }
                    let ghost before = *self;
                    proof {
                        assert(decreases_to!(*cases => cases@));
                        assert(decreases_to!(cases@ => cases@[i as int]));
                        assert(decreases_to!(cases@[i as int] => cases@[i as int].body));
                        assert(decreases_to!(*statement => cases@[i as int].body));
                    }
                    self.walk_block(&cases[i].body, true);
                    proof {
                        lemma_walk_keeps_trans(b1, before, *self);
                        let s = cases@;
                        lemma_collects_trans(
                            b1,
                            before,
                            *self,
                            cases_gotos(s.take(i as int)),
                            cases_labels(s.take(i as int)),
                            block_gotos(s[i as int].body),
                            block_labels(s[i as int].body),
                        );
                        assert(s.take(i + 1).drop_last() =~= s.take(i as int));
                        assert(s.take(i + 1).last() == s[i as int]);
                    }
                    i += 1;
                }
                proof {
                    assert(cases@.take(i as int) =~= cases@);
                    lemma_walk_keeps_trans(b, b1, *self);
                    lemma_collects_trans(
                        b,
                        b1,
                        *self,
                        opt_gotos(*init),
                        opt_labels(*init),
                        cases_gotos(cases@),
                        cases_labels(cases@),
                    );
                }
                let ghost c = *self;
                self.pop_scope();
                proof {
                    lemma_push_walk_pop(a, b, c, *self);
                }
            },
            StmtSyntaxKind::TypeSwitch { init, binding, cases, .. } => {
                self.push_scope();
                let ghost b = *self;
                self.walk_optional(init);
                let ghost b1 = *self;
                proof {
                    lemma_walk_keeps_refl(b1);
                    lemma_collects_nothing(b1, b1);
                    assert(cases@.take(0) =~= Seq::<CaseClauseSyntax>::empty());
                }
                let mut i: usize = 0;
                while i < cases.len()
                    invariant
                        b.wf(),
                        b1.wf(),
                        self.wf(),
                        b1.walk_keeps(b),
                        self.walk_keeps(b1),
                        self.scopes@ == b1.scopes@,
                        i <= cases@.len(),
                        self.within(b1, 2 * (i as nat) + cases_weight(cases@.take(i as int))),
                        b1.room(2 * cases@.len() + cases_weight(cases@)),
                        self.collects(b1, cases_gotos(cases@.take(i as int)), cases_labels(cases@.take(i as int))),
                        self.model() == walk_type_cases_model(b1.model(), *binding, cases@.take(i as int)),
                        decreases_to!(*statement => *cases),
                    decreases cases@.len() - i,
                {
                    proof {
                        lemma_cases_weight_prefix(cases@, i as int);
                        lemma_cases_weight_prefix(cases@, i + 1);
                    }
                    let ghost before = *self;
                    self.push_scope();
                    let ghost inner = *self;
                    proof {
                        lemma_walk_keeps_refl(inner);
                    }
                    if let Some(binding) = binding {
                        self.declare(binding.name.as_str());
                    }
                    let ghost inner1 = *self;
                    proof {
                        assert(decreases_to!(*cases => cases@));
                        assert(decreases_to!(cases@ => cases@[i as int]));
                        assert(decreases_to!(cases@[i as int] => cases@[i as int].body));
                        assert(decreases_to!(*statement => cases@[i as int].body));
                    }
                    self.walk_block(&cases[i].body, false);
                    proof {
                        lemma_walk_keeps_trans(inner, inner1, *self);
                    }
                    let ghost c = *self;
                    self.pop_scope();
                    proof {
                        lemma_push_walk_pop(before, inner, c, *self);
                        lemma_walk_keeps_trans(b1, before, *self);
                        let s = cases@;
                        assert(self.collects(before, block_gotos(s[i as int].body), block_labels(s[i as int].body)));
                        lemma_collects_trans(
                            b1,
                            before,
                            *self,
                            cases_gotos(s.take(i as int)),
                            cases_labels(s.take(i as int)),
                            block_gotos(s[i as int].body),
                            block_labels(s[i as int].body),
                        );
                        assert(s.take(i + 1).drop_last() =~= s.take(i as int));
                        assert(s.take(i + 1).last() == s[i as int]);
                    }
                    i += 1;
                }
                proof {
                    assert(cases@.take(i as int) =~= cases@);
                    lemma_walk_keeps_trans(b, b1, *self);
                    lemma_collects_trans(
                        b,
                        b1,
                        *self,
                        opt_gotos(*init),
                        opt_labels(*init),
                        cases_gotos(cases@),
                        cases_labels(cases@),
                    );
                }
                let ghost c = *self;
                self.pop_scope();
                proof {
                    lemma_push_walk_pop(a, b, c, *self);
                }
            },
            StmtSyntaxKind::Select { cases } => {
                proof {
                    assert(cases@.take(0) =~= Seq::<SelectCaseSyntax>::empty());
                }
                let mut i: usize = 0;
                while i < cases.len()
                    invariant
                        a.wf(),
                        self.wf(),
                        self.walk_keeps(a),
                        self.scopes@ == a.scopes@,
                        i <= cases@.len(),
                        self.within(a, 2 * (i as nat) + select_weight(cases@.take(i as int))),
                        a.room(2 * cases@.len() + select_weight(cases@)),
                        self.collects(a, select_gotos(cases@.take(i as int)), select_labels(cases@.take(i as int))),
                        self.model() == walk_select_model(a.model(), cases@.take(i as int)),
                        decreases_to!(*statement => *cases),
                    decreases cases@.len() - i,
                {
                    proof {
                        lemma_select_weight_prefix(cases@, i as int);
                        lemma_select_weight_prefix(cases@, i + 1);
                    }
                    let ghost before = *self;
                    self.push_scope();
                    let ghost inner = *self;
                    let case = &cases[i];
                    proof {
                        assert(decreases_to!(*cases => cases@));
                        assert(decreases_to!(cases@ => cases@[i as int]));
                        assert(decreases_to!(cases@[i as int] => cases@[i as int].body));
                        assert(decreases_to!(*statement => cases@[i as int].body));
                        assert(decreases_to!(cases@[i as int] => cases@[i as int].communication));
                        assert(decreases_to!(*statement => cases@[i as int].communication));
                    }
                    match &case.communication {
                        Some(communication) => self.walk_stmt(communication),
                        None => {
                            proof {
                                lemma_walk_keeps_refl(inner);
                                lemma_collects_nothing(inner, inner);
                            }
                        },
                    }
                    let ghost inner1 = *self;
                    assert(inner1.model() == walk_opt_model(inner.model(), case.communication));
                    self.walk_block(&case.body, false);
                    proof {
                        lemma_walk_keeps_trans(inner, inner1, *self);
                        lemma_collects_trans(
                            inner,
                            inner1,
                            *self,
                            opt_gotos(case.communication),
                            opt_labels(case.communication),
                            block_gotos(case.body),
                            block_labels(case.body),
                        );
                    }
                    let ghost c = *self;
                    self.pop_scope();
                    proof {
                        lemma_push_walk_pop(before, inner, c, *self);
                        lemma_walk_keeps_trans(a, before, *self);
                        let s = cases@;
                        assert(self.collects(
                            before,
                            opt_gotos(s[i as int].communication) + block_gotos(s[i as int].body),
                            opt_labels(s[i as int].communication).union(block_labels(s[i as int].body)),
                        ));
                        lemma_collects_trans(
                            a,
                            before,
                            *self,
                            select_gotos(s.take(i as int)),
                            select_labels(s.take(i as int)),
                            opt_gotos(s[i as int].communication) + block_gotos(s[i as int].body),
                            opt_labels(s[i as int].communication).union(block_labels(s[i as int].body)),
                        );
                        assert(s.take(i + 1).drop_last() =~= s.take(i as int));
                        assert(s.take(i + 1).last() == s[i as int]);
                        assert(select_gotos(s.take(i as int)) + (opt_gotos(s[i as int].communication) + block_gotos(
                            s[i as int].body,
                        )) =~= select_gotos(s.take(i + 1)));
                        assert(self.model() == walk_select_model(a.model(), s.take(i + 1)));
                        lemma_collects_more_labels(
                            a,
                            *self,
                            select_gotos(s.take(i + 1)),
                            select_labels(s.take(i as int)).union(
                                opt_labels(s[i as int].communication).union(block_labels(s[i as int].body)),
                            ),
                            select_labels(s.take(i + 1)),
                        );
                    }
                    i += 1;
                }
                proof {
                    assert(cases@.take(i as int) =~= cases@);
                }
            },
            StmtSyntaxKind::Labeled { label, statement: inner } => {
                self.record_label(label.name.as_str());
                let ghost a1 = *self;
                proof {
                    lemma_walk_keeps_refl(a1);
                    assert(a1.walk_keeps(a));
                }
                self.walk_stmt(inner);
                proof {
                    lemma_walk_keeps_trans(a, a1, *self);
                    lemma_collects_trans(
                        a,
                        a1,
                        *self,
                        Seq::empty(),
                        set![label.name@],
                        stmt_gotos(**inner),
                        stmt_labels(**inner),
                    );
                    assert(Seq::<(Seq<char>, SyntaxSource)>::empty() + stmt_gotos(**inner) =~= stmt_gotos(**inner));
                }
            },
            StmtSyntaxKind::Branch { token: Token::GOTO, label: Some(label) } => {
                let position = self.position();
                self.gotos.push(GotoUse { label: label.name.clone(), source: statement.source, position });
                proof {
                    assert(self.gotos@.take(a.gotos@.len() as int) =~= a.gotos@);
                    assert(goto_sites(self.gotos@) =~= goto_sites(a.gotos@) + seq![(label.name@, statement.source)]);
                    lemma_model_visible(a.scopes@);
                    assert(self.model().gotos =~= a.model().gotos.push(
                        (label.name@, statement.source, model_position(a.model())),
                    ));
                }
            },
            _ => {},
        }
    }
}

/// Where a label stands: `Some(Some(p))` for a label defined once,
/// `Some(None)` for a label defined twice, `None` for an undefined label.
pub open spec fn label_position(labels: Seq<LabelEntry>, name: Seq<char>) -> Option<Option<Position>> {
    if exists|k: int| 0 <= k < labels.len() && (#[trigger] labels[k]).name@ == name {
        let k = choose|k: int| 0 <= k < labels.len() && (#[trigger] labels[k]).name@ == name;
        Some(labels[k].position)
    } else {
        None
    }
}

/// The goto's scopes do not include all of the label's scopes: it would
/// jump into a block.
pub open spec fn enters_block(target: Seq<usize>, jump: Seq<usize>) -> bool {
    !(target.len() <= jump.len() && jump.take(target.len() as int) == target)
}

/// The bindings visible at the label but not at the goto.
pub open spec fn skipped_bindings(target: Seq<usize>, jump: Seq<usize>) -> Set<usize> {
    target.to_set().difference(jump.to_set())
}

/// The least member of a set of binding numbers.
pub open spec fn least(s: Set<usize>) -> usize {
    choose|b: usize| s.contains(b) && forall|c: usize| s.contains(c) ==> b <= c
}

/// The name a binding was declared with.
pub open spec fn binding_name(names: Seq<String>, b: usize) -> Seq<char> {
    if b < names.len() {
        names[b as int]@
    } else {
        "variable"@
    }
}

/// The diagnostic message for a goto, or `None` when it is legal or its
/// label is undefined or repeated (those are diagnosed elsewhere).
pub open spec fn goto_verdict(jump: GotoUse, labels: Seq<LabelEntry>, names: Seq<String>) -> Option<Seq<char>> {
    match label_position(labels, jump.label@) {
        Some(Some(t)) => if enters_block(t.scope_path@, jump.position.scope_path@) {
            Some("goto "@ + jump.label@ + " jumps into block"@)
        } else if exists|b: usize| skipped_bindings(t.bindings@, jump.position.bindings@).contains(b) {
            Some(
                "goto "@ + jump.label@ + " jumps over declaration of "@ + binding_name(
                    names,
                    least(skipped_bindings(t.bindings@, jump.position.bindings@)),
                ),
            )
        } else {
            None
        },
        _ => None,
    }
}

/// Whether `x` occurs in `v`.
fn occurs(v: &Vec<usize>, x: usize) -> (r: bool)
    ensures
        r == v@.contains(x),
{
    let mut i: usize = 0;
    while i < v.len()
        invariant
            i <= v@.len(),
            forall|j: int| 0 <= j < i ==> v@[j] != x,
        decreases v@.len() - i,
    {
        if v[i] == x {
            return true;
        }
        i += 1;
    }
    false
}

/// Whether `target` is a prefix of `path`.
fn path_prefix(target: &Vec<usize>, path: &Vec<usize>) -> (r: bool)
    ensures
        r == !enters_block(target@, path@),
{
    if target.len() > path.len() {
        return false;
    }
    let mut i: usize = 0;
    while i < target.len()
        invariant
            target@.len() <= path@.len(),
            i <= target@.len(),
            forall|j: int| 0 <= j < i ==> target@[j] == path@[j],
        decreases target@.len() - i,
    {
        if target[i] != path[i] {
            proof {
                assert(path@.take(target@.len() as int)[i as int] != target@[i as int]);
            }
            return false;
        }
        i += 1;
    }
    proof {
        assert(path@.take(target@.len() as int) =~= target@);
    }
    true
}

/// The least binding visible at the label but not at the goto.
fn least_skipped(target: &Vec<usize>, jump: &Vec<usize>) -> (r: Option<usize>)
    ensures
        r is None <==> !(exists|b: usize| skipped_bindings(target@, jump@).contains(b)),
        r matches Some(b) ==> b == least(skipped_bindings(target@, jump@)),
{
    let ghost d = skipped_bindings(target@, jump@);
    let mut best: Option<usize> = None;
    let mut i: usize = 0;
    while i < target.len()
        invariant
            i <= target@.len(),
            d == skipped_bindings(target@, jump@),
            best is None ==> forall|j: int| 0 <= j < i ==> jump@.contains(#[trigger] target@[j]),
            best matches Some(b) ==> d.contains(b) && forall|j: int|
                0 <= j < i && !jump@.contains(#[trigger] target@[j]) ==> b <= target@[j],
        decreases target@.len() - i,
    {
        let x = target[i];
        if !occurs(jump, x) {
            proof {
                assert(target@.contains(x));
            }
            best = match best {
                Some(b) => if x < b { Some(x) } else { Some(b) },
                None => Some(x),
            };
        }
        i += 1;
    }
    match best {
        Some(b) => {
            proof {
                assert forall|c: usize| d.contains(c) implies b <= c by {
                    let j = choose|j: int| 0 <= j < target@.len() && target@[j] == c;
                }
                let m = least(d);
                assert(d.contains(m) && forall|c: usize| d.contains(c) ==> m <= c);
                assert(m <= b && b <= m);
            }
            Some(b)
        },
        None => {
            proof {
                assert forall|c: usize| !d.contains(c) by {
                    if d.contains(c) {
                        let j = choose|j: int| 0 <= j < target@.len() && target@[j] == c;
                    }
                }
            }
            None
        },
    }
}

impl Analyzer {
    /// The index of the label entry with that name.
    fn find_label(&self, name: &String) -> (r: Option<usize>)
        requires
            self.wf(),
        ensures
            r is None <==> label_position(self.labels@, name@) is None,
            r matches Some(k) ==> k < self.labels@.len() && label_position(self.labels@, name@) == Some(
                self.labels@[k as int].position,
            ),
    {
        let mut k: usize = 0;
        while k < self.labels.len()
            invariant
                self.wf(),
                k <= self.labels@.len(),
                forall|j: int| 0 <= j < k ==> (#[trigger] self.labels@[j]).name@ != name@,
            decreases self.labels@.len() - k,
        {
            if self.labels[k].name == *name {
                proof {
                    let c = choose|c: int| 0 <= c < self.labels@.len() && (#[trigger] self.labels@[c]).name@ == name@;
                    if c != k {
                        if c < k {
                            assert(self.labels@[c].name@ != self.labels@[k as int].name@);
                        } else {
                            assert(self.labels@[k as int].name@ != self.labels@[c].name@);
                        }
                    }
                }
                return Some(k);
            }
            k += 1;
        }
        None
    }

    /// The diagnostic message for the goto at index `i`, if it is illegal.
    #[verifier::spinoff_prover]
    #[verifier::rlimit(40)]
    fn check_goto(&self, i: usize) -> (r: Option<String>)
        requires
            self.wf(),
            i < self.gotos@.len(),
        ensures
            r is None <==> goto_verdict(self.gotos@[i as int], self.labels@, self.binding_names@) is None,
            r matches Some(m) ==> goto_verdict(self.gotos@[i as int], self.labels@, self.binding_names@) == Some(m@),
    {
        let jump = &self.gotos[i];
        let k = match self.find_label(&jump.label) {
            Some(k) => k,
            None => return None,
        };
        let target = match &self.labels[k].position {
            Some(target) => target,
            None => return None,
        };
        if !path_prefix(&target.scope_path, &jump.position.scope_path) {
            let mut message = String::from_str("goto ");
            message.append(jump.label.as_str());
            message.append(" jumps into block");
            return Some(message);
        }
        match least_skipped(&target.bindings, &jump.position.bindings) {
            Some(b) => {
                let mut message = String::from_str("goto ");
                message.append(jump.label.as_str());
                message.append(" jumps over declaration of ");
                if b < self.binding_names.len() {
                    message.append(self.binding_names[b].as_str());
                } else {
                    message.append("variable");
                }
                Some(message)
            },
            None => None,
        }
    }

    /// Checks every recorded goto against its label: the first goto that
    /// would jump into a block or over a declaration is the error.
    pub fn finish(self) -> (r: Result<(), GotoScopeError>)
        requires
            self.wf(),
        ensures
            r is Ok <==> forall|i: int|
                0 <= i < self.gotos@.len() ==> goto_verdict(#[trigger] self.gotos@[i], self.labels@, self.binding_names@) is None,
            r matches Err(e) ==> exists|i: int|
                0 <= i < self.gotos@.len() && (forall|j: int|
                    0 <= j < i ==> goto_verdict(#[trigger] self.gotos@[j], self.labels@, self.binding_names@) is None)
                    && goto_verdict(self.gotos@[i], self.labels@, self.binding_names@) == Some(e.message@)
                    && e.source == self.gotos@[i].source,
    {
        let mut i: usize = 0;
        while i < self.gotos.len()
            invariant
                self.wf(),
                i <= self.gotos@.len(),
                forall|j: int|
                    0 <= j < i ==> goto_verdict(#[trigger] self.gotos@[j], self.labels@, self.binding_names@) is None,
            decreases self.gotos@.len() - i,
        {
            if let Some(message) = self.check_goto(i) {
                return Err(GotoScopeError { message, source: self.gotos[i].source });
            }
            i += 1;
        }
        Ok(())
    }
}

/// The two diagnostics a goto to `label` can get.
pub open spec fn goto_message(message: Seq<char>, label: Seq<char>) -> bool {
    ||| message == "goto "@ + label + " jumps into block"@
    ||| exists|name: Seq<char>| message == "goto "@ + label + " jumps over declaration of "@ + name
}

/// The state a walk over a function body starts from: the function scope
/// is open, and nothing is recorded.
pub open spec fn initial_walk() -> WalkState {
    WalkState {
        next_scope: 1,
        next_binding: 0,
        scopes: seq![(0usize, Seq::empty())],
        names: Seq::empty(),
        labels: Seq::empty(),
        gotos: Seq::empty(),
    }
}

/// Where a recorded label stands, as `label_position` tells it.
pub open spec fn model_label_position(
    labels: Seq<(Seq<char>, Option<(Seq<usize>, Seq<usize>)>)>,
    name: Seq<char>,
) -> Option<Option<(Seq<usize>, Seq<usize>)>> {
    if exists|k: int| 0 <= k < labels.len() && (#[trigger] labels[k]).0 == name {
        let k = choose|k: int| 0 <= k < labels.len() && (#[trigger] labels[k]).0 == name;
        Some(labels[k].1)
    } else {
        None
    }
}

/// The name of a binding number.
pub open spec fn model_binding_name(names: Seq<Seq<char>>, b: usize) -> Seq<char> {
    if b < names.len() {
        names[b as int]
    } else {
        "variable"@
    }
}

/// The diagnostic for a recorded goto, as `goto_verdict` gives it.
pub open spec fn model_verdict(
    jump: (Seq<char>, SyntaxSource, (Seq<usize>, Seq<usize>)),
    labels: Seq<(Seq<char>, Option<(Seq<usize>, Seq<usize>)>)>,
    names: Seq<Seq<char>>,
) -> Option<Seq<char>> {
    match model_label_position(labels, jump.0) {
        Some(Some(t)) => if enters_block(t.0, jump.2.0) {
            Some("goto "@ + jump.0 + " jumps into block"@)
        } else if exists|b: usize| skipped_bindings(t.1, jump.2.1).contains(b) {
            Some(
                "goto "@ + jump.0 + " jumps over declaration of "@ + model_binding_name(
                    names,
                    least(skipped_bindings(t.1, jump.2.1)),
                ),
            )
        } else {
            None
        },
        _ => None,
    }
}

/// The verdict on a recorded goto is the same on the analyzer and on its
/// model.
#[verifier::spinoff_prover]
#[verifier::rlimit(80)]
proof fn lemma_verdict_model(a: Analyzer, i: int)
    requires
        a.wf(),
        0 <= i < a.gotos@.len(),
    ensures
        goto_verdict(a.gotos@[i], a.labels@, a.binding_names@) == model_verdict(
            a.model().gotos[i],
            a.model().labels,
            a.model().names,
        ),
{
    let m = a.model();
    let g = a.gotos@[i];
    let name = g.label@;
    assert(m.gotos[i] == (g.label@, g.source, (g.position.scope_path@, g.position.bindings@)));
    assert forall|b: usize| model_binding_name(m.names, b) == binding_name(a.binding_names@, b) by {
        if b < a.binding_names@.len() {
            assert(m.names[b as int] == a.binding_names@[b as int]@);
        }
    }
    if exists|k: int| 0 <= k < a.labels@.len() && (#[trigger] a.labels@[k]).name@ == name {
        let k = choose|k: int| 0 <= k < a.labels@.len() && (#[trigger] a.labels@[k]).name@ == name;
        assert(label_position(a.labels@, name) == Some(a.labels@[k].position));
        assert(m.labels[k].0 == name);
        let k2 = choose|k: int| 0 <= k < m.labels.len() && (#[trigger] m.labels[k]).0 == name;
        assert(a.labels@[k2].name@ == name);
        if k != k2 {
            if k < k2 {
                assert(a.labels@[k].name@ != a.labels@[k2].name@);
            } else {
                assert(a.labels@[k2].name@ != a.labels@[k].name@);
            }
        }
        assert(model_label_position(m.labels, name) == Some(position_model(a.labels@[k].position)));
        match a.labels@[k].position {
            Some(t) => {
                assert(position_model(a.labels@[k].position) == Some((t.scope_path@, t.bindings@)));
                let skipped = skipped_bindings(t.bindings@, g.position.bindings@);
                let jump = m.gotos[i];
                assert(jump.0 == name && jump.2.0 == g.position.scope_path@ && jump.2.1 == g.position.bindings@);
                assert(model_label_position(m.labels, jump.0) == Some(Some((t.scope_path@, t.bindings@))));
                assert(label_position(a.labels@, g.label@) == Some(Some(t)));
                assert(binding_name(a.binding_names@, least(skipped)) == model_binding_name(m.names, least(skipped)));
                if enters_block(t.scope_path@, g.position.scope_path@) {
                    assert(goto_verdict(g, a.labels@, a.binding_names@) == Some("goto "@ + name + " jumps into block"@));
                    assert(model_verdict(jump, m.labels, m.names) == Some("goto "@ + name + " jumps into block"@));
                } else if exists|b: usize| skipped.contains(b) {
                    let text = "goto "@ + name + " jumps over declaration of "@ + binding_name(
                        a.binding_names@,
                        least(skipped),
                    );
                    assert(goto_verdict(g, a.labels@, a.binding_names@) == Some(text));
                    let w = choose|b: usize| skipped.contains(b);
                    let t2 = (t.scope_path@, t.bindings@);
                    assert(skipped_bindings(t2.1, jump.2.1) == skipped);
                    assert(skipped_bindings(t2.1, jump.2.1).contains(w));
                    assert(model_verdict(jump, m.labels, m.names) == Some(text));
                } else {
                    assert(goto_verdict(g, a.labels@, a.binding_names@) is None);
                    let t2 = (t.scope_path@, t.bindings@);
                    assert(skipped_bindings(t2.1, jump.2.1) == skipped);
                    assert(model_verdict(jump, m.labels, m.names) is None);
                }
            },
            None => {
                assert(goto_verdict(g, a.labels@, a.binding_names@) is None);
                assert(model_verdict(m.gotos[i], m.labels, m.names) is None);
            },
        }
    } else {
        assert(label_position(a.labels@, name) is None);
        assert(!exists|k: int| 0 <= k < m.labels.len() && (#[trigger] m.labels[k]).0 == name) by {
            if exists|k: int| 0 <= k < m.labels.len() && (#[trigger] m.labels[k]).0 == name {
                let k = choose|k: int| 0 <= k < m.labels.len() && (#[trigger] m.labels[k]).0 == name;
                assert(a.labels@[k].name@ == name);
            }
        }
        assert(model_label_position(m.labels, name) is None);
    }
}

/// Checks the gotos of a function body: no goto may jump into a block or
/// over a variable declaration in scope at its label. The body is walked
/// once, recording every goto and label with the scopes and bindings in
/// force where it stands; then the gotos are checked in the order they
/// occur and the first illegal one is the error. A goto whose label the
/// body does not define, or defines twice, is left to other checks.
#[verifier::spinoff_prover]
#[verifier::rlimit(80)]
pub fn validate(block: &BlockSyntax) -> (r: Result<(), GotoScopeError>)
    requires
        block_weight(*block) + 1 <= usize::MAX,
    ensures
        ({
            let w = walk_block_model(initial_walk(), *block, false);
            &&& r is Ok <==> forall|i: int| 0 <= i < w.gotos.len() ==> model_verdict(#[trigger] w.gotos[i], w.labels, w.names) is None
            &&& r matches Err(e) ==> exists|i: int|
                0 <= i < w.gotos.len() && (forall|j: int|
                    0 <= j < i ==> model_verdict(#[trigger] w.gotos[j], w.labels, w.names) is None)
                    && model_verdict(w.gotos[i], w.labels, w.names) == Some(e.message@) && e.source == w.gotos[i].1
        }),
        block_gotos(*block).len() == 0 ==> r is Ok,
        r matches Err(e) ==> exists|i: int|
            0 <= i < block_gotos(*block).len() && #[trigger] block_gotos(*block)[i].1 == e.source
                && block_labels(*block).contains(block_gotos(*block)[i].0) && goto_message(
                e.message@,
                block_gotos(*block)[i].0,
            ),
{
    let mut analyzer = Analyzer {
        next_scope: 1,
        next_binding: 0,
        scopes: vec![Scope { id: 0, bindings: Vec::new() }],
        binding_names: Vec::new(),
        labels: Vec::new(),
        gotos: Vec::new(),
    };
    proof {
        assert(scope_path(analyzer.scopes@) =~= seq![0usize]);
        assert(goto_sites(analyzer.gotos@) =~= Seq::empty());
        assert(bindings_model(analyzer.scopes@[0].bindings@) =~= Seq::empty());
        assert(analyzer.model().scopes =~= initial_walk().scopes);
        assert(analyzer.model().names =~= initial_walk().names);
        assert(analyzer.model().labels =~= initial_walk().labels);
        assert(analyzer.model().gotos =~= initial_walk().gotos);
        assert(analyzer.model() == initial_walk());
    }
    let ghost start = analyzer;
    analyzer.walk_block(block, false);
    let ghost walked = analyzer;
    proof {
        assert(goto_sites(walked.gotos@) =~= block_gotos(*block));
        assert forall|n: Seq<char>| label_names(walked.labels@).contains(n) implies block_labels(*block).contains(n) by {
            assert(label_names(start.labels@).union(block_labels(*block)).contains(n));
            if label_names(start.labels@).contains(n) {
                let k = choose|k: int| 0 <= k < start.labels@.len() && (#[trigger] start.labels@[k]).name@ == n;
            }
        }
        assert forall|i: int| 0 <= i < walked.gotos@.len() implies goto_verdict(
            #[trigger] walked.gotos@[i],
            walked.labels@,
            walked.binding_names@,
        ) == model_verdict(walked.model().gotos[i], walked.model().labels, walked.model().names) by {
            lemma_verdict_model(walked, i);
        }
    }
    let r = analyzer.finish();
    proof {
        let w = walked.model();
        assert(goto_sites(walked.gotos@).len() == walked.gotos@.len());
        assert(w.gotos.len() == walked.gotos@.len());
        if r is Err {
            let e = r->Err_0;
            let i = choose|i: int|
                0 <= i < walked.gotos@.len() && (forall|j: int|
                    0 <= j < i ==> goto_verdict(#[trigger] walked.gotos@[j], walked.labels@, walked.binding_names@) is None)
                    && goto_verdict(walked.gotos@[i], walked.labels@, walked.binding_names@) == Some(e.message@)
                    && e.source == walked.gotos@[i].source;
            let g = walked.gotos@[i];
            assert(goto_sites(walked.gotos@)[i] == (g.label@, g.source));
            assert(label_position(walked.labels@, g.label@) is Some);
            let k = choose|k: int| 0 <= k < walked.labels@.len() && (#[trigger] walked.labels@[k]).name@ == g.label@;
            assert(label_names(walked.labels@).contains(g.label@));
            assert(goto_message(e.message@, g.label@));
            assert(block_gotos(*block)[i].1 == e.source);
            assert(w.gotos[i].1 == e.source);
            assert forall|j: int| 0 <= j < i implies model_verdict(#[trigger] w.gotos[j], w.labels, w.names) is None by {
                assert(goto_verdict(walked.gotos@[j], walked.labels@, walked.binding_names@) is None);
            }
        } else {
            assert forall|i: int| 0 <= i < w.gotos.len() implies model_verdict(#[trigger] w.gotos[i], w.labels, w.names) is None by {
                assert(goto_verdict(walked.gotos@[i], walked.labels@, walked.binding_names@) is None);
            }
        }
    }
    r
}

} // verus!
