//! The variables that a loop body assigns, for per-iteration value captures.

use vstd::prelude::*;

use crate::syntax::{
    BlockSyntax, CaseClauseSyntax, ExprSyntax, ExprSyntaxKind, SelectCaseSyntax, StmtSyntax,
    StmtSyntaxKind, Token,
};

verus! {

/// The name of an identifier expression.
pub open spec fn ident_name(e: ExprSyntax) -> Set<Seq<char>> {
    match e.kind {
        ExprSyntaxKind::Ident(id) => set![id.name@],
        _ => Set::empty(),
    }
}

/// The names of the identifier expressions among `exprs`.
pub open spec fn ident_names(exprs: Seq<ExprSyntax>) -> Set<Seq<char>> {
    Set::new(|n: Seq<char>| exists|i: int| 0 <= i < exprs.len() && (#[trigger] ident_name(exprs[i])).contains(n))
}

pub open spec fn opt_ident_name(e: Option<ExprSyntax>) -> Set<Seq<char>> {
    match e {
        Some(e) => ident_name(e),
        None => Set::empty(),
    }
}

/// The names that a statement assigns or declares by assignment, nested
/// statements included.
pub open spec fn assigned_in_stmt(s: StmtSyntax) -> Set<Seq<char>>
    decreases s, 0int,
{
    match s.kind {
        StmtSyntaxKind::Assign { left, .. } => ident_names(left@),
        StmtSyntaxKind::IncDec { expression, .. } => ident_name(expression),
        StmtSyntaxKind::Block(b) => assigned_in_block(b),
        StmtSyntaxKind::If { init, then_block, else_branch, .. } => assigned_in_opt(init).union(
            assigned_in_block(then_block),
        ).union(assigned_in_opt(else_branch)),
        StmtSyntaxKind::For { init, post, body, .. } => assigned_in_opt(init).union(assigned_in_block(body)).union(
            assigned_in_opt(post),
        ),
        StmtSyntaxKind::Range { key, value, token, body, .. } => if token == Some(Token::ASSIGN) {
            opt_ident_name(key).union(opt_ident_name(value)).union(assigned_in_block(body))
        } else {
            assigned_in_block(body)
        },
        StmtSyntaxKind::Switch { init, cases, .. } => assigned_in_opt(init).union(assigned_in_cases(cases@)),
        StmtSyntaxKind::TypeSwitch { init, cases, .. } => assigned_in_opt(init).union(assigned_in_cases(cases@)),
        StmtSyntaxKind::Select { cases } => assigned_in_select(cases@),
        StmtSyntaxKind::Labeled { statement, .. } => assigned_in_stmt(*statement),
        StmtSyntaxKind::Defer { body, .. } => assigned_in_block(body),
        StmtSyntaxKind::Go { body, .. } => assigned_in_block(body),
        _ => Set::empty(),
    }
}

pub open spec fn assigned_in_opt(s: Option<Box<StmtSyntax>>) -> Set<Seq<char>>
    decreases s, 1int,
{
    match s {
        Some(b) => assigned_in_stmt(*b),
        None => Set::empty(),
    }
}

pub open spec fn assigned_in_block(b: BlockSyntax) -> Set<Seq<char>>
    decreases b, 1int,
{
    assigned_in_stmts(b.statements@)
}

pub open spec fn assigned_in_stmts(s: Seq<StmtSyntax>) -> Set<Seq<char>>
    decreases s, 0int,
{
    if s.len() == 0 {
        Set::empty()
    } else {
        assigned_in_stmts(s.drop_last()).union(assigned_in_stmt(s.last()))
    }
}

pub open spec fn assigned_in_cases(s: Seq<CaseClauseSyntax>) -> Set<Seq<char>>
    decreases s, 0int,
{
    if s.len() == 0 {
        Set::empty()
    } else {
        assigned_in_cases(s.drop_last()).union(assigned_in_block(s.last().body))
    }
}

pub open spec fn assigned_in_select(s: Seq<SelectCaseSyntax>) -> Set<Seq<char>>
    decreases s, 0int,
{
    if s.len() == 0 {
        Set::empty()
    } else {
        assigned_in_select(s.drop_last()).union(assigned_in_opt(s.last().communication)).union(
            assigned_in_block(s.last().body),
        )
    }
}

/// The names held in a list of strings.
pub open spec fn name_set(v: Seq<String>) -> Set<Seq<char>> {
    Set::new(|n: Seq<char>| exists|i: int| 0 <= i < v.len() && (#[trigger] v[i])@ == n)
}

/// No name occurs twice.
pub open spec fn distinct_names(v: Seq<String>) -> bool {
    forall|i: int, j: int| 0 <= i < j < v.len() ==> (#[trigger] v[i])@ != (#[trigger] v[j])@
}

/// Adds a name to a set of names.
fn insert_name(names: &mut Vec<String>, name: &String)
    requires
        distinct_names(old(names)@),
    ensures
        distinct_names(final(names)@),
        name_set(final(names)@) == name_set(old(names)@).insert(name@),
{
    let mut i: usize = 0;
    while i < names.len()
        invariant
            names@ == old(names)@,
            distinct_names(old(names)@),
            i <= names@.len(),
            forall|j: int| 0 <= j < i ==> (#[trigger] names@[j])@ != name@,
        decreases names@.len() - i,
    {
        if names[i] == *name {
            proof {
                assert(name_set(names@) =~= name_set(old(names)@).insert(name@));
            }
            return;
        }
        i += 1;
    }
    names.push(name.clone());
    proof {
        assert(names@[names@.len() - 1] == *name);
        assert forall|n: Seq<char>| name_set(names@).contains(n) <==> name_set(old(names)@).insert(name@).contains(n) by {
            if name_set(old(names)@).contains(n) {
                let k = choose|k: int| 0 <= k < old(names)@.len() && (#[trigger] old(names)@[k])@ == n;
                assert(names@[k] == old(names)@[k]);
            }
            if name_set(names@).contains(n) {
                let k = choose|k: int| 0 <= k < names@.len() && (#[trigger] names@[k])@ == n;
                if k < old(names)@.len() {
                    assert(names@[k] == old(names)@[k]);
                }
            }
        }
        assert(name_set(names@) =~= name_set(old(names)@).insert(name@));
    }
}

/// Adds the name of an identifier expression.
fn insert_ident(names: &mut Vec<String>, expression: &ExprSyntax)
    requires
        distinct_names(old(names)@),
    ensures
        distinct_names(final(names)@),
        name_set(final(names)@) == name_set(old(names)@).union(ident_name(*expression)),
{
    if let ExprSyntaxKind::Ident(ident) = &expression.kind {
        insert_name(names, &ident.name);
    } else {
        proof {
            assert(name_set(names@) =~= name_set(old(names)@).union(ident_name(*expression)));
        }
    }
}

/// Adds every name of another set.
fn extend_names(names: &mut Vec<String>, more: &Vec<String>)
    requires
        distinct_names(old(names)@),
    ensures
        distinct_names(final(names)@),
        name_set(final(names)@) == name_set(old(names)@).union(name_set(more@)),
{
    let mut i: usize = 0;
    while i < more.len()
        invariant
            i <= more@.len(),
            distinct_names(names@),
            name_set(names@) == name_set(old(names)@).union(name_set(more@.take(i as int))),
        decreases more@.len() - i,
    {
        insert_name(names, &more[i]);
        proof {
            assert(name_set(more@.take(i + 1)) =~= name_set(more@.take(i as int)).insert(more@[i as int]@)) by {
                assert forall|n: Seq<char>| name_set(more@.take(i + 1)).contains(n) implies name_set(
                    more@.take(i as int),
                ).insert(more@[i as int]@).contains(n) by {
                    let k = choose|k: int| 0 <= k < i + 1 && (#[trigger] more@.take(i + 1)[k])@ == n;
                    if k < i {
                        assert(more@.take(i as int)[k] == more@.take(i + 1)[k]);
                    }
                }
                assert forall|n: Seq<char>| name_set(more@.take(i as int)).insert(more@[i as int]@).contains(n)
                    implies name_set(more@.take(i + 1)).contains(n) by {
                    if n == more@[i as int]@ {
                        assert(more@.take(i + 1)[i as int] == more@[i as int]);
                    } else {
                        let k = choose|k: int| 0 <= k < i && (#[trigger] more@.take(i as int)[k])@ == n;
                        assert(more@.take(i + 1)[k] == more@.take(i as int)[k]);
                    }
                }
            }
            assert(name_set(names@) =~= name_set(old(names)@).union(name_set(more@.take(i + 1))));
        }
        i += 1;
    }
    proof {
        assert(more@.take(i as int) =~= more@);
    }
}

/// The names that the statements of a block assign.
pub fn assigned_names_in_block(block: &BlockSyntax) -> (r: Vec<String>)
    ensures
        distinct_names(r@),
        name_set(r@) == assigned_in_block(*block),
    decreases *block, 1int,
{
    let mut names: Vec<String> = Vec::new();
    proof {
        assert(name_set(names@) =~= Set::<Seq<char>>::empty());
        assert(block.statements@.take(0) =~= Seq::<StmtSyntax>::empty());
    }
    let mut i: usize = 0;
    while i < block.statements.len()
        invariant
            i <= block.statements@.len(),
            distinct_names(names@),
            name_set(names@) == assigned_in_stmts(block.statements@.take(i as int)),
        decreases block.statements@.len() - i,
    {
        collect_assigned_names(&block.statements[i], &mut names);
        proof {
            assert(block.statements@.take(i + 1).drop_last() =~= block.statements@.take(i as int));
        }
        i += 1;
    }
    proof {
        assert(block.statements@.take(i as int) =~= block.statements@);
    }
    names
}

/// Adds the names that a statement assigns.
pub fn collect_assigned_names(statement: &StmtSyntax, names: &mut Vec<String>)
    requires
        distinct_names(old(names)@),
    ensures
        distinct_names(final(names)@),
        name_set(final(names)@) == name_set(old(names)@).union(assigned_in_stmt(*statement)),
    decreases *statement, 1int,
{
    let ghost start = name_set(names@);
    match &statement.kind {
        StmtSyntaxKind::Assign { left, .. } => {
            let mut i: usize = 0;
            while i < left.len()
                invariant
                    i <= left@.len(),
                    distinct_names(names@),
                    name_set(names@) == start.union(ident_names(left@.take(i as int))),
                decreases left@.len() - i,
            {
                insert_ident(names, &left[i]);
                proof {
                    assert(ident_names(left@.take(i + 1)) =~= ident_names(left@.take(i as int)).union(
                        ident_name(left@[i as int]),
                    )) by {
                        assert forall|n: Seq<char>| ident_names(left@.take(i + 1)).contains(n) implies ident_names(
                            left@.take(i as int),
                        ).union(ident_name(left@[i as int])).contains(n) by {
                            let k = choose|k: int|
                                0 <= k < i + 1 && (#[trigger] ident_name(left@.take(i + 1)[k])).contains(n);
                            if k < i {
                                assert(left@.take(i as int)[k] == left@.take(i + 1)[k]);
                            }
                        }
                        assert forall|n: Seq<char>| ident_names(left@.take(i as int)).union(
                            ident_name(left@[i as int]),
                        ).contains(n) implies ident_names(left@.take(i + 1)).contains(n) by {
                            if ident_name(left@[i as int]).contains(n) {
                                assert(left@.take(i + 1)[i as int] == left@[i as int]);
                            } else {
                                let k = choose|k: int|
                                    0 <= k < i && (#[trigger] ident_name(left@.take(i as int)[k])).contains(n);
                                assert(left@.take(i + 1)[k] == left@.take(i as int)[k]);
                            }
                        }
                    }
                    assert(name_set(names@) =~= start.union(ident_names(left@.take(i + 1))));
                }
                i += 1;
            }
            proof {
                assert(left@.take(i as int) =~= left@);
            }
        },
        StmtSyntaxKind::IncDec { expression, .. } => insert_ident(names, expression),
        StmtSyntaxKind::Block(block) => {
            let inner = assigned_names_in_block(block);
            extend_names(names, &inner);
        },
        StmtSyntaxKind::If { init, then_block, else_branch, .. } => {
            collect_optional(init, names);
            let inner = assigned_names_in_block(then_block);
            extend_names(names, &inner);
            collect_optional(else_branch, names);
            proof {
                assert(name_set(names@) =~= start.union(assigned_in_stmt(*statement)));
            }
        },
        StmtSyntaxKind::For { init, post, body, .. } => {
            collect_optional(init, names);
            let inner = assigned_names_in_block(body);
            extend_names(names, &inner);
            collect_optional(post, names);
            proof {
                assert(name_set(names@) =~= start.union(assigned_in_stmt(*statement)));
            }
        },
        StmtSyntaxKind::Range { key, value, token, body, .. } => {
            if *token == Some(Token::ASSIGN) {
                if let Some(key) = key {
                    insert_ident(names, key);
                }
                if let Some(value) = value {
                    insert_ident(names, value);
                }
            }
            let inner = assigned_names_in_block(body);
            extend_names(names, &inner);
            proof {
                assert(name_set(names@) =~= start.union(assigned_in_stmt(*statement)));
            }
        },
        StmtSyntaxKind::Switch { init, cases, .. } => {
            collect_optional(init, names);
            collect_cases(statement, cases, names);
            proof {
                assert(name_set(names@) =~= start.union(assigned_in_stmt(*statement)));
            }
        },
        StmtSyntaxKind::TypeSwitch { init, cases, .. } => {
            collect_optional(init, names);
            collect_cases(statement, cases, names);
            proof {
                assert(name_set(names@) =~= start.union(assigned_in_stmt(*statement)));
            }
        },
        StmtSyntaxKind::Select { cases } => {
            let mut i: usize = 0;
            proof {
                assert(cases@.take(0) =~= Seq::<SelectCaseSyntax>::empty());
                assert(name_set(names@) =~= start.union(assigned_in_select(cases@.take(0))));
            }
            while i < cases.len()
                invariant
                    i <= cases@.len(),
                    distinct_names(names@),
                    name_set(names@) == start.union(assigned_in_select(cases@.take(i as int))),
                    decreases_to!(*statement => *cases),
                decreases cases@.len() - i,
            {
                proof {
                    assert(decreases_to!(*cases => cases@));
                    assert(decreases_to!(cases@ => cases@[i as int]));
                    assert(decreases_to!(cases@[i as int] => cases@[i as int].body));
                    assert(decreases_to!(cases@[i as int] => cases@[i as int].communication));
                }
                let case = &cases[i];
                collect_optional(&case.communication, names);
                let inner = assigned_names_in_block(&case.body);
                extend_names(names, &inner);
                proof {
                    assert(cases@.take(i + 1).drop_last() =~= cases@.take(i as int));
                    assert(name_set(names@) =~= start.union(assigned_in_select(cases@.take(i + 1))));
                }
                i += 1;
            }
            proof {
                assert(cases@.take(i as int) =~= cases@);
            }
        },
        StmtSyntaxKind::Labeled { statement: inner, .. } => collect_assigned_names(inner, names),
        StmtSyntaxKind::Defer { body, .. } => {
            let inner = assigned_names_in_block(body);
            extend_names(names, &inner);
        },
        StmtSyntaxKind::Go { body, .. } => {
            let inner = assigned_names_in_block(body);
            extend_names(names, &inner);
        },
        _ => {
            proof {
                assert(name_set(names@) =~= start.union(assigned_in_stmt(*statement)));
            }
        },
    }
}

/// Adds the names that an optional statement assigns.
fn collect_optional(statement: &Option<Box<StmtSyntax>>, names: &mut Vec<String>)
    requires
        distinct_names(old(names)@),
    ensures
        distinct_names(final(names)@),
        name_set(final(names)@) == name_set(old(names)@).union(assigned_in_opt(*statement)),
    decreases *statement, 1int,
{
    match statement {
        Some(s) => collect_assigned_names(s, names),
        None => {
            proof {
                assert(name_set(names@) =~= name_set(old(names)@).union(assigned_in_opt(*statement)));
            }
        },
    }
}

/// Adds the names that the case bodies of a switch assign.
fn collect_cases(statement: &StmtSyntax, cases: &Vec<CaseClauseSyntax>, names: &mut Vec<String>)
    requires
        distinct_names(old(names)@),
        decreases_to!(*statement => *cases),
    ensures
        distinct_names(final(names)@),
        name_set(final(names)@) == name_set(old(names)@).union(assigned_in_cases(cases@)),
    decreases *statement, 0int,
{
    let ghost start = name_set(names@);
    let mut i: usize = 0;
    proof {
        assert(cases@.take(0) =~= Seq::<CaseClauseSyntax>::empty());
        assert(name_set(names@) =~= start.union(assigned_in_cases(cases@.take(0))));
    }
    while i < cases.len()
        invariant
            i <= cases@.len(),
            distinct_names(names@),
            name_set(names@) == start.union(assigned_in_cases(cases@.take(i as int))),
            decreases_to!(*statement => *cases),
        decreases cases@.len() - i,
    {
        proof {
            assert(decreases_to!(*cases => cases@));
            assert(decreases_to!(cases@ => cases@[i as int]));
            assert(decreases_to!(cases@[i as int] => cases@[i as int].body));
        }
        let inner = assigned_names_in_block(&cases[i].body);
        extend_names(names, &inner);
        proof {
            assert(cases@.take(i + 1).drop_last() =~= cases@.take(i as int));
            assert(name_set(names@) =~= start.union(assigned_in_cases(cases@.take(i + 1))));
        }
        i += 1;
    }
    proof {
        assert(cases@.take(i as int) =~= cases@);
    }
}

} // verus!
