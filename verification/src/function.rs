//! Function-local bindings and scopes.

use vstd::prelude::*;

use crate::constant::ConstValue;
use crate::constants::{
    eval_constant_with_lookups, evaluates, evaluation_of, ConstantSymbol, ConstantTable, TypeAlias, TypeTable,
};
use crate::control_targets::ActiveControlTarget;
use crate::hir::{
    ClosureId, Diagnostic, Place, redeclared_message, DiagnosticKind, Effects, Expr, ExprKind, LocalId, LocalTypeId, NodeId, SourceRef,
    ValueCategory,
};
use crate::syntax::{ExprSyntax, FieldListSyntax, FieldSyntax, IdentSyntax, SyntaxSource};
use crate::bignum::int_spelling;
use crate::expressions::{coerce_expr, coerced_from, coercible};
use crate::literals::{lemma_int_spelling_roundtrip, u64_spelling};
use crate::types::{IntTy, Ty};

verus! {

// Maps keyed by name, held as lists in which no name occurs twice.

/// The list holds an entry for the name.
pub open spec fn has_key<T>(m: Seq<(String, T)>, name: Seq<char>) -> bool {
    exists|i: int| 0 <= i < m.len() && (#[trigger] m[i]).0@ == name
}

/// The value of the name's entry.
pub open spec fn entry<T>(m: Seq<(String, T)>, name: Seq<char>) -> Option<T> {
    if has_key(m, name) {
        let i = choose|i: int| 0 <= i < m.len() && (#[trigger] m[i]).0@ == name;
        Some(m[i].1)
    } else {
        None
    }
}

/// No name occurs twice.
pub open spec fn unique_keys<T>(m: Seq<(String, T)>) -> bool {
    forall|i: int, j: int| 0 <= i < j < m.len() ==> (#[trigger] m[i]).0@ != (#[trigger] m[j]).0@
}

/// The index of the entry for a name.
pub fn find_key<T>(m: &Vec<(String, T)>, name: &str) -> (r: Option<usize>)
    requires
        unique_keys(m@),
    ensures
        r is None <==> !has_key(m@, name@),
        r matches Some(k) ==> k < m@.len() && m@[k as int].0@ == name@ && entry(m@, name@) == Some(m@[k as int].1),
{
    let key = String::from_str(name);
    let mut k: usize = 0;
    while k < m.len()
        invariant
            unique_keys(m@),
            key@ == name@,
            k <= m@.len(),
            forall|j: int| 0 <= j < k ==> (#[trigger] m@[j]).0@ != name@,
        decreases m@.len() - k,
    {
        if m[k].0 == key {
            proof {
                let c = choose|i: int| 0 <= i < m@.len() && (#[trigger] m@[i]).0@ == name@;
                if c != k {
                    if c < k {
                        assert(m@[c].0@ != m@[k as int].0@);
                    } else {
                        assert(m@[k as int].0@ != m@[c].0@);
                    }
                }
            }
            return Some(k);
        }
        k += 1;
    }
    None
}

/// Sets the entry for a name and returns the value it replaced.
pub fn insert_entry<T>(m: &mut Vec<(String, T)>, name: String, value: T) -> (r: Option<T>)
    requires
        unique_keys(old(m)@),
    ensures
        unique_keys(final(m)@),
        r == entry(old(m)@, name@),
        forall|n: Seq<char>| #[trigger] entry(final(m)@, n) == if n == name@ { Some(value) } else { entry(old(m)@, n) },
{
    let found = find_key(m, name.as_str());
    let ghost before = m@;
    let ghost key = name@;
    let ghost v = value;
    match found {
        Some(k) => {
            let (_, previous) = m.remove(k);
            m.insert(k, (name, value));
            proof {
                assert(m@ =~= before.update(k as int, m@[k as int]));
                assert(m@[k as int].0@ == key);
                lemma_entry_update(before, k as int, m@[k as int]);
            }
            Some(previous)
        },
        None => {
            m.push((name, value));
            proof {
                lemma_entry_push(before, m@[before.len() as int]);
            }
            None
        },
    }
}

/// Removes the entry for a name.
pub fn remove_entry<T>(m: &mut Vec<(String, T)>, name: &str)
    requires
        unique_keys(old(m)@),
    ensures
        unique_keys(final(m)@),
        forall|n: Seq<char>| #[trigger] entry(final(m)@, n) == if n == name@ { None } else { entry(old(m)@, n) },
{
    let found = find_key(m, name);
    let ghost before = m@;
    if let Some(k) = found {
        m.remove(k);
        proof {
            lemma_entry_remove(before, k as int);
        }
    }
}

proof fn lemma_entry_update<T>(s: Seq<(String, T)>, k: int, x: (String, T))
    requires
        unique_keys(s),
        0 <= k < s.len(),
        x.0@ == s[k].0@,
    ensures
        unique_keys(s.update(k, x)),
        forall|n: Seq<char>| #[trigger] entry(s.update(k, x), n) == if n == x.0@ { Some(x.1) } else { entry(s, n) },
{
    let t = s.update(k, x);
    assert forall|i: int, j: int| 0 <= i < j < t.len() implies (#[trigger] t[i]).0@ != (#[trigger] t[j]).0@ by {
        assert(t[i].0@ == s[i].0@ && t[j].0@ == s[j].0@);
    }
    assert forall|n: Seq<char>| #[trigger] entry(t, n) == if n == x.0@ { Some(x.1) } else { entry(s, n) } by {
        if n == x.0@ {
            assert(t[k].0@ == n);
            let c = choose|i: int| 0 <= i < t.len() && (#[trigger] t[i]).0@ == n;
            if c != k {
                if c < k {
                    assert(t[c].0@ != t[k].0@);
                } else {
                    assert(t[k].0@ != t[c].0@);
                }
            }
        } else {
            if has_key(t, n) {
                let c = choose|i: int| 0 <= i < t.len() && (#[trigger] t[i]).0@ == n;
                assert(s[c].0@ == n);
                let e = choose|i: int| 0 <= i < s.len() && (#[trigger] s[i]).0@ == n;
                if c != e {
                    if c < e {
                        assert(s[c].0@ != s[e].0@);
                    } else {
                        assert(s[e].0@ != s[c].0@);
                    }
                }
            }
            if has_key(s, n) {
                let e = choose|i: int| 0 <= i < s.len() && (#[trigger] s[i]).0@ == n;
                assert(t[e].0@ == n);
            }
        }
    }
}

proof fn lemma_entry_push<T>(s: Seq<(String, T)>, x: (String, T))
    requires
        unique_keys(s),
        !has_key(s, x.0@),
    ensures
        unique_keys(s.push(x)),
        forall|n: Seq<char>| #[trigger] entry(s.push(x), n) == if n == x.0@ { Some(x.1) } else { entry(s, n) },
{
    let t = s.push(x);
    assert forall|i: int, j: int| 0 <= i < j < t.len() implies (#[trigger] t[i]).0@ != (#[trigger] t[j]).0@ by {
        if j == s.len() {
            assert(t[i] == s[i]);
        } else {
            assert(t[i] == s[i] && t[j] == s[j]);
        }
    }
    assert forall|n: Seq<char>| #[trigger] entry(t, n) == if n == x.0@ { Some(x.1) } else { entry(s, n) } by {
        if n == x.0@ {
            assert(t[s.len() as int].0@ == n);
            let c = choose|i: int| 0 <= i < t.len() && (#[trigger] t[i]).0@ == n;
            if c < s.len() {
                assert(t[c] == s[c]);
            }
        } else {
            if has_key(t, n) {
                let c = choose|i: int| 0 <= i < t.len() && (#[trigger] t[i]).0@ == n;
                assert(t[c] == s[c]);
                let e = choose|i: int| 0 <= i < s.len() && (#[trigger] s[i]).0@ == n;
                if c != e {
                    if c < e {
                        assert(s[c].0@ != s[e].0@);
                    } else {
                        assert(s[e].0@ != s[c].0@);
                    }
                }
            }
            if has_key(s, n) {
                let e = choose|i: int| 0 <= i < s.len() && (#[trigger] s[i]).0@ == n;
                assert(t[e] == s[e]);
            }
        }
    }
}

proof fn lemma_entry_remove<T>(s: Seq<(String, T)>, k: int)
    requires
        unique_keys(s),
        0 <= k < s.len(),
    ensures
        unique_keys(s.remove(k)),
        forall|n: Seq<char>| #[trigger] entry(s.remove(k), n) == if n == s[k].0@ { None } else { entry(s, n) },
{
    let t = s.remove(k);
    assert forall|i: int, j: int| 0 <= i < j < t.len() implies (#[trigger] t[i]).0@ != (#[trigger] t[j]).0@ by {
        let a = if i < k { i } else { i + 1 };
        let b = if j < k { j } else { j + 1 };
        assert(t[i] == s[a] && t[j] == s[b]);
    }
    assert forall|n: Seq<char>| #[trigger] entry(t, n) == if n == s[k].0@ { None } else { entry(s, n) } by {
        if has_key(t, n) {
            let c = choose|i: int| 0 <= i < t.len() && (#[trigger] t[i]).0@ == n;
            let a = if c < k { c } else { c + 1 };
            assert(t[c] == s[a]);
            if n == s[k].0@ {
                if a < k {
                    assert(s[a].0@ != s[k].0@);
                } else {
                    assert(s[k].0@ != s[a].0@);
                }
            } else {
                let e = choose|i: int| 0 <= i < s.len() && (#[trigger] s[i]).0@ == n;
                if a != e {
                    if a < e {
                        assert(s[a].0@ != s[e].0@);
                    } else {
                        assert(s[e].0@ != s[a].0@);
                    }
                }
            }
        }
        if n != s[k].0@ && has_key(s, n) {
            let e = choose|i: int| 0 <= i < s.len() && (#[trigger] s[i]).0@ == n;
            let c = if e < k { e } else { e - 1 };
            assert(t[c] == s[e]);
        }
    }
}

/// A constant declared inside a function.
pub struct LocalConstantSymbol {
    pub ty: Ty,
    pub value: ConstValue,
}

#[derive(Clone, Copy, Debug, PartialEq, Eq, Structural)]
pub enum LocalKind {
    Receiver,
    Parameter,
    NamedResult,
    Variable,
}

/// A local variable of the function being lowered.
pub struct Local {
    pub id: LocalId,
    pub name: Option<String>,
    pub ty: Ty,
    pub kind: LocalKind,
    pub source: SourceRef,
}

/// The state of lowering one function body: the identities allocated so
/// far, the lexical scopes of its locals, constants, closures and types,
/// and its open break and continue targets.
pub struct FunctionLowerer {
    pub owner: u64,
    pub next_node: u32,
    pub next_local_type: u32,
    pub next_control_target: u32,
    pub constants: ConstantTable,
    pub local_constant_scopes: Vec<Vec<(String, LocalConstantSymbol)>>,
    pub type_aliases: Vec<(String, Ty)>,
    pub type_scope_changes: Vec<Vec<(String, Option<Ty>)>>,
    pub locals: Vec<Local>,
    pub scopes: Vec<Vec<(String, LocalId)>>,
    pub closure_scopes: Vec<Vec<(String, ClosureId)>>,
    pub control_targets: Vec<ActiveControlTarget>,
    pub source_override: Option<SyntaxSource>,
    pub source_plan: Vec<(SourceRef, SyntaxSource)>,
}

impl FunctionLowerer {
    /// The four scope stacks have one level per open block, and no name
    /// occurs twice in one level or among the type aliases.
    pub open spec fn wf(&self) -> bool {
        &&& self.local_constant_scopes@.len() == self.scopes@.len()
        &&& self.type_scope_changes@.len() == self.scopes@.len()
        &&& self.closure_scopes@.len() == self.scopes@.len()
        &&& unique_keys(self.type_aliases@)
        &&& forall|i: int| 0 <= i < self.scopes@.len() ==> unique_keys(#[trigger] self.scopes@[i]@)
        &&& forall|i: int| 0 <= i < self.scopes@.len() ==> unique_keys(#[trigger] self.local_constant_scopes@[i]@)
        &&& forall|i: int| 0 <= i < self.scopes@.len() ==> unique_keys(#[trigger] self.closure_scopes@[i]@)
        &&& forall|i: int| 0 <= i < self.scopes@.len() ==> unique_keys(#[trigger] self.type_scope_changes@[i]@)
    }

    pub open spec fn depth(&self) -> int {
        self.scopes@.len() as int
    }

    /// The innermost level of the locals, or nothing outside every block.
    pub open spec fn current_locals(&self) -> Seq<(String, LocalId)> {
        if self.depth() == 0 { Seq::empty() } else { self.scopes@.last()@ }
    }

    pub open spec fn current_constants(&self) -> Seq<(String, LocalConstantSymbol)> {
        if self.depth() == 0 { Seq::empty() } else { self.local_constant_scopes@.last()@ }
    }

    pub open spec fn current_closures(&self) -> Seq<(String, ClosureId)> {
        if self.depth() == 0 { Seq::empty() } else { self.closure_scopes@.last()@ }
    }

    pub open spec fn current_types(&self) -> Seq<(String, Option<Ty>)> {
        if self.depth() == 0 { Seq::empty() } else { self.type_scope_changes@.last()@ }
    }

    /// The type alias that a name has once the innermost block closes: what
    /// the block shadowed, or the present alias where it declared nothing.
    pub open spec fn undone_alias(&self, n: Seq<char>) -> Option<Ty> {
        match entry(self.current_types(), n) {
            Some(previous) => previous,
            None => entry(self.type_aliases@, n),
        }
    }

    /// The local that a name denotes, searching the levels below `d` from
    /// the innermost: a constant of that name at a level hides outer locals.
    pub open spec fn local_below(&self, d: int, name: Seq<char>) -> Option<LocalId>
        decreases d,
    {
        if d <= 0 || d > self.depth() {
            None
        } else if has_key(self.scopes@[d - 1]@, name) {
            entry(self.scopes@[d - 1]@, name)
        } else if has_key(self.local_constant_scopes@[d - 1]@, name) {
            None
        } else {
            self.local_below(d - 1, name)
        }
    }

    /// The local constant that a name denotes, searching the levels below
    /// `d` from the innermost: a local of that name hides outer constants.
    pub open spec fn constant_below(&self, d: int, name: Seq<char>) -> Option<LocalConstantSymbol>
        decreases d,
    {
        if d <= 0 || d > self.depth() {
            None
        } else if has_key(self.local_constant_scopes@[d - 1]@, name) {
            entry(self.local_constant_scopes@[d - 1]@, name)
        } else if has_key(self.scopes@[d - 1]@, name) {
            None
        } else {
            self.constant_below(d - 1, name)
        }
    }

    /// The closure that a name denotes, searching the levels below `d`
    /// from the innermost: a local or constant of that name hides it.
    pub open spec fn closure_below(&self, d: int, name: Seq<char>) -> Option<ClosureId>
        decreases d,
    {
        if d <= 0 || d > self.depth() {
            None
        } else if has_key(self.scopes@[d - 1]@, name) || has_key(self.local_constant_scopes@[d - 1]@, name) {
            None
        } else if has_key(self.closure_scopes@[d - 1]@, name) {
            entry(self.closure_scopes@[d - 1]@, name)
        } else {
            self.closure_below(d - 1, name)
        }
    }

    /// A lowerer for a function of `owner` with the package's constants and
    /// type aliases, inside the function's outermost block.
    pub fn new(owner: u64, constants: ConstantTable, type_aliases: Vec<(String, Ty)>) -> (r: FunctionLowerer)
        requires
            unique_keys(type_aliases@),
        ensures
            r.wf(),
            r.depth() == 1,
            r.owner == owner,
            r.next_node == 1,
            r.next_local_type == 0,
            r.next_control_target == 0,
            r.locals@.len() == 0,
            r.control_targets@.len() == 0,
            r.type_aliases@ == type_aliases@,
            r.current_locals().len() == 0,
            r.current_constants().len() == 0,
            r.current_closures().len() == 0,
            r.current_types().len() == 0,
            r.control_wf(),
    {
        let mut local_constant_scopes = Vec::new();
        local_constant_scopes.push(Vec::new());
        let mut type_scope_changes = Vec::new();
        type_scope_changes.push(Vec::new());
        let mut scopes = Vec::new();
        scopes.push(Vec::new());
        let mut closure_scopes = Vec::new();
        closure_scopes.push(Vec::new());
        FunctionLowerer {
            owner,
            next_node: 1,
            next_local_type: 0,
            next_control_target: 0,
            constants,
            local_constant_scopes,
            type_aliases,
            type_scope_changes,
            locals: Vec::new(),
            scopes,
            closure_scopes,
            control_targets: Vec::new(),
            source_override: None,
            source_plan: Vec::new(),
        }
    }

    /// Opens a block: an empty level on each scope stack.
    pub fn push_scope(&mut self)
        requires
            old(self).wf(),
        ensures
            final(self).wf(),
            final(self).depth() == old(self).depth() + 1,
            final(self).scopes@.drop_last() == old(self).scopes@,
            final(self).local_constant_scopes@.drop_last() == old(self).local_constant_scopes@,
            final(self).closure_scopes@.drop_last() == old(self).closure_scopes@,
            final(self).type_scope_changes@.drop_last() == old(self).type_scope_changes@,
            final(self).current_locals().len() == 0,
            final(self).current_constants().len() == 0,
            final(self).current_closures().len() == 0,
            final(self).current_types().len() == 0,
            final(self).type_aliases@ == old(self).type_aliases@,
            forall|n: Seq<char>| #[trigger] final(self).undone_alias(n) == entry(old(self).type_aliases@, n),
            final(self).locals@ == old(self).locals@,
    {
        self.scopes.push(Vec::new());
        self.closure_scopes.push(Vec::new());
        self.type_scope_changes.push(Vec::new());
        self.local_constant_scopes.push(Vec::new());
        proof {
            assert(self.scopes@.drop_last() =~= old(self).scopes@);
            assert(self.closure_scopes@.drop_last() =~= old(self).closure_scopes@);
            assert(self.type_scope_changes@.drop_last() =~= old(self).type_scope_changes@);
            assert(self.local_constant_scopes@.drop_last() =~= old(self).local_constant_scopes@);
        }
    }

    /// Closes the innermost block: its levels are dropped and each type
    /// alias that the block declared is undone, restoring what it shadowed.
    pub fn pop_scope(&mut self)
        requires
            old(self).wf(),
        ensures
            final(self).wf(),
            old(self).depth() > 0 ==> final(self).depth() == old(self).depth() - 1 && final(self).scopes@
                == old(self).scopes@.drop_last() && final(self).local_constant_scopes@
                == old(self).local_constant_scopes@.drop_last() && final(self).closure_scopes@
                == old(self).closure_scopes@.drop_last() && final(self).type_scope_changes@
                == old(self).type_scope_changes@.drop_last(),
            old(self).depth() == 0 ==> final(self).depth() == 0,
            forall|n: Seq<char>| #[trigger] entry(final(self).type_aliases@, n) == match entry(
                old(self).current_types(),
                n,
            ) {
                Some(previous) => previous,
                None => entry(old(self).type_aliases@, n),
            },
            forall|n: Seq<char>| #[trigger] entry(final(self).type_aliases@, n) == old(self).undone_alias(n),
            final(self).locals@ == old(self).locals@,
    {
        if self.scopes.len() == 0 {
            return;
        }
        self.scopes.pop();
        self.closure_scopes.pop();
        self.local_constant_scopes.pop();
        let changes = self.type_scope_changes.pop().unwrap();
        proof {
            assert(self.scopes@ =~= old(self).scopes@.drop_last());
            assert(self.closure_scopes@ =~= old(self).closure_scopes@.drop_last());
            assert(self.local_constant_scopes@ =~= old(self).local_constant_scopes@.drop_last());
            assert(self.type_scope_changes@ =~= old(self).type_scope_changes@.drop_last());
            assert(unique_keys(changes@)) by {
                assert(changes@ == old(self).type_scope_changes@[old(self).depth() - 1]@);
            }
        }
        let mut i: usize = 0;
        while i < changes.len()
            invariant
                i <= changes@.len(),
                unique_keys(changes@),
                unique_keys(self.type_aliases@),
                changes@ == old(self).current_types(),
                self.scopes@ == old(self).scopes@.drop_last(),
                self.local_constant_scopes@ == old(self).local_constant_scopes@.drop_last(),
                self.closure_scopes@ == old(self).closure_scopes@.drop_last(),
                self.type_scope_changes@ == old(self).type_scope_changes@.drop_last(),
                self.locals@ == old(self).locals@,
                old(self).wf(),
                old(self).depth() > 0,
                forall|n: Seq<char>| #[trigger] entry(self.type_aliases@, n) == match entry(changes@.take(i as int), n) {
                    Some(previous) => previous,
                    None => entry(old(self).type_aliases@, n),
                },
            decreases changes@.len() - i,
        {
            let name = &changes[i].0;
            match &changes[i].1 {
                Some(previous) => {
                    insert_entry(&mut self.type_aliases, name.clone(), previous.clone());
                },
                None => {
                    remove_entry(&mut self.type_aliases, name.as_str());
                },
            }
            proof {
                lemma_take_step(changes@, i as int);
            }
            i += 1;
        }
        proof {
            assert(changes@.take(i as int) =~= changes@);
        }
    }
}

/// Entries of a prefix one longer: the new entry adds its name.
proof fn lemma_take_step<T>(s: Seq<(String, T)>, i: int)
    requires
        unique_keys(s),
        0 <= i < s.len(),
    ensures
        forall|n: Seq<char>|
            #[trigger] entry(s.take(i + 1), n) == if n == s[i].0@ {
                Some(s[i].1)
            } else {
                entry(s.take(i), n)
            },
{
    let t = s.take(i + 1);
    let p = s.take(i);
    assert(p.push(s[i]) =~= t);
    assert(unique_keys(p)) by {
        assert forall|a: int, b: int| 0 <= a < b < p.len() implies (#[trigger] p[a]).0@ != (#[trigger] p[b]).0@ by {
            assert(p[a] == s[a] && p[b] == s[b]);
        }
    }
    assert(!has_key(p, s[i].0@)) by {
        if has_key(p, s[i].0@) {
            let c = choose|c: int| 0 <= c < p.len() && (#[trigger] p[c]).0@ == s[i].0@;
            assert(p[c] == s[c]);
            assert(s[c].0@ != s[i].0@);
        }
    }
    lemma_entry_push(p, s[i]);
}

impl FunctionLowerer {
    /// The local of that name in the innermost block.
    pub fn lookup_current_local(&self, name: &str) -> (r: Option<LocalId>)
        requires
            self.wf(),
        ensures
            r == entry(self.current_locals(), name@),
    {
        if self.scopes.len() == 0 {
            return None;
        }
        let last = self.scopes.len() - 1;
        match find_key(&self.scopes[last], name) {
            Some(k) => Some(self.scopes[last][k].1),
            None => None,
        }
    }

    /// The local that a name denotes in the enclosing blocks.
    pub fn lookup_local(&self, name: &str) -> (r: Option<LocalId>)
        requires
            self.wf(),
        ensures
            r == self.local_below(self.depth(), name@),
    {
        let mut d: usize = self.scopes.len();
        while d > 0
            invariant
                self.wf(),
                d <= self.depth(),
                self.local_below(self.depth(), name@) == self.local_below(d as int, name@),
            decreases d,
        {
            let i = d - 1;
            if let Some(k) = find_key(&self.scopes[i], name) {
                return Some(self.scopes[i][k].1);
            }
            if find_key(&self.local_constant_scopes[i], name).is_some() {
                return None;
            }
            d = i;
        }
        None
    }

    /// The local constant that a name denotes in the enclosing blocks.
    pub fn lookup_local_constant(&self, name: &str) -> (r: Option<&LocalConstantSymbol>)
        requires
            self.wf(),
        ensures
            match r {
                Some(c) => self.constant_below(self.depth(), name@) == Some(*c),
                None => self.constant_below(self.depth(), name@) is None,
            },
    {
        let mut d: usize = self.scopes.len();
        while d > 0
            invariant
                self.wf(),
                d <= self.depth(),
                self.constant_below(self.depth(), name@) == self.constant_below(d as int, name@),
            decreases d,
        {
            let i = d - 1;
            if let Some(k) = find_key(&self.local_constant_scopes[i], name) {
                return Some(&self.local_constant_scopes[i][k].1);
            }
            if find_key(&self.scopes[i], name).is_some() {
                return None;
            }
            d = i;
        }
        None
    }

    /// The closure that a name denotes in the enclosing blocks.
    pub fn lookup_closure(&self, name: &str) -> (r: Option<ClosureId>)
        requires
            self.wf(),
        ensures
            r == self.closure_below(self.depth(), name@),
    {
        let mut d: usize = self.scopes.len();
        while d > 0
            invariant
                self.wf(),
                d <= self.depth(),
                self.closure_below(self.depth(), name@) == self.closure_below(d as int, name@),
            decreases d,
        {
            let i = d - 1;
            if find_key(&self.scopes[i], name).is_some() || find_key(&self.local_constant_scopes[i], name).is_some() {
                return None;
            }
            if let Some(k) = find_key(&self.closure_scopes[i], name) {
                return Some(self.closure_scopes[i][k].1);
            }
            d = i;
        }
        None
    }

    /// Whether the innermost level of a scope stack binds the name.
    fn current_has<T>(levels: &Vec<Vec<(String, T)>>, name: &str) -> (r: bool)
        requires
            levels@.len() > 0 ==> unique_keys(levels@.last()@),
        ensures
            r == (levels@.len() > 0 && has_key(levels@.last()@, name@)),
    {
        if levels.len() == 0 {
            return false;
        }
        find_key(&levels[levels.len() - 1], name).is_some()
    }

    /// Declares a constant in the innermost block.  A name that the block
    /// already declares as a local, closure or type is rejected; a repeated
    /// constant is rejected after its entry is replaced.
    pub fn bind_local_constant(&mut self, name: String, constant: LocalConstantSymbol, source: SourceRef) -> (r: Result<
        (),
        Diagnostic,
    >)
        requires
            old(self).wf(),
        ensures
            final(self).wf(),
            final(self).depth() == old(self).depth(),
            keeps_block_aliases(*old(self), *final(self)),
            final(self).scopes@ == old(self).scopes@,
            final(self).closure_scopes@ == old(self).closure_scopes@,
            final(self).type_scope_changes@ == old(self).type_scope_changes@,
            final(self).type_aliases@ == old(self).type_aliases@,
            final(self).local_constant_scopes@.drop_last() == old(self).local_constant_scopes@.drop_last(),
            ({
                let conflict = has_key(old(self).current_locals(), name@) || has_key(
                    old(self).current_closures(),
                    name@,
                ) || has_key(old(self).current_types(), name@);
                &&& conflict ==> (r matches Err(d) && d.kind == DiagnosticKind::Semantic && d.message@ == redeclared_message(name@) && final(self).local_constant_scopes@ == old(self).local_constant_scopes@)
                &&& !conflict && old(self).depth() == 0 ==> (r matches Err(d) && d.kind == DiagnosticKind::Backend)
                &&& !conflict && old(self).depth() > 0 ==> (forall|n: Seq<char>|
                    #[trigger] entry(final(self).current_constants(), n) == if n == name@ {
                        Some(constant)
                    } else {
                        entry(old(self).current_constants(), n)
                    }) && (r is Ok <==> !has_key(old(self).current_constants(), name@)) && (r matches Err(d)
                    ==> d.kind == DiagnosticKind::Semantic && d.message@ == redeclared_message(name@))
            }),
    {
        if self.lookup_current_local(name.as_str()).is_some() || Self::current_has(&self.closure_scopes, name.as_str())
            || Self::current_has(&self.type_scope_changes, name.as_str()) {
            return Err(Diagnostic::redeclared(name.as_str(), source));
        }
        if self.local_constant_scopes.len() == 0 {
            return Err(Diagnostic::backend("function has no local constant scope"));
        }
        let mut level = self.local_constant_scopes.pop().unwrap();
        let ghost before = level@;
        proof {
            assert(before == old(self).local_constant_scopes@[old(self).depth() - 1]@);
        }
        let previous = insert_entry(&mut level, name.clone(), constant);
        self.local_constant_scopes.push(level);
        proof {
            assert(self.local_constant_scopes@.drop_last() =~= old(self).local_constant_scopes@.drop_last());
            assert forall|i: int| 0 <= i < self.scopes@.len() implies unique_keys(#[trigger] self.local_constant_scopes@[i]@) by {
                if i < self.scopes@.len() - 1 {
                    assert(self.local_constant_scopes@[i] == old(self).local_constant_scopes@[i]);
                }
            }
        }
        if previous.is_some() {
            return Err(Diagnostic::redeclared(name.as_str(), source));
        }
        Ok(())
    }

    /// Declares a closure in the innermost block.  A name that the block
    /// already declares as a local, type or constant is rejected; a repeated
    /// closure is rejected after its entry is replaced.
    pub fn bind_closure(&mut self, name: &str, id: ClosureId, source: SourceRef) -> (r: Result<(), Diagnostic>)
        requires
            old(self).wf(),
        ensures
            final(self).wf(),
            final(self).depth() == old(self).depth(),
            keeps_block_aliases(*old(self), *final(self)),
            final(self).scopes@ == old(self).scopes@,
            final(self).local_constant_scopes@ == old(self).local_constant_scopes@,
            final(self).type_scope_changes@ == old(self).type_scope_changes@,
            final(self).type_aliases@ == old(self).type_aliases@,
            final(self).closure_scopes@.drop_last() == old(self).closure_scopes@.drop_last(),
            ({
                let conflict = has_key(old(self).current_locals(), name@) || has_key(
                    old(self).current_types(),
                    name@,
                ) || has_key(old(self).current_constants(), name@);
                &&& conflict ==> (r matches Err(d) && d.kind == DiagnosticKind::Semantic && d.message@ == redeclared_message(name@) && final(self).closure_scopes@ == old(self).closure_scopes@)
                &&& !conflict && old(self).depth() == 0 ==> (r matches Err(d) && d.kind == DiagnosticKind::Backend)
                &&& !conflict && old(self).depth() > 0 ==> (forall|n: Seq<char>|
                    #[trigger] entry(final(self).current_closures(), n) == if n == name@ {
                        Some(id)
                    } else {
                        entry(old(self).current_closures(), n)
                    }) && (r is Ok <==> !has_key(old(self).current_closures(), name@)) && (r matches Err(d)
                    ==> d.kind == DiagnosticKind::Semantic && d.message@ == redeclared_message(name@))
            }),
    {
        if self.lookup_current_local(name).is_some() || Self::current_has(&self.type_scope_changes, name)
            || Self::current_has(&self.local_constant_scopes, name) {
            return Err(Diagnostic::redeclared(name, source));
        }
        if self.closure_scopes.len() == 0 {
            return Err(Diagnostic::backend("function has no closure scope"));
        }
        let mut level = self.closure_scopes.pop().unwrap();
        let ghost before = level@;
        proof {
            assert(before == old(self).closure_scopes@[old(self).depth() - 1]@);
        }
        let previous = insert_entry(&mut level, String::from_str(name), id);
        self.closure_scopes.push(level);
        proof {
            assert(self.closure_scopes@.drop_last() =~= old(self).closure_scopes@.drop_last());
            assert forall|i: int| 0 <= i < self.scopes@.len() implies unique_keys(#[trigger] self.closure_scopes@[i]@) by {
                if i < self.scopes@.len() - 1 {
                    assert(self.closure_scopes@[i] == old(self).closure_scopes@[i]);
                }
            }
        }
        if previous.is_some() {
            return Err(Diagnostic::redeclared(name, source));
        }
        Ok(())
    }

    /// Declares a type in the innermost block: the alias takes the new
    /// type, and the block records what the alias was so that closing the
    /// block restores it.
    pub fn bind_local_type(&mut self, name: String, ty: Ty, source: SourceRef) -> (r: Result<(), Diagnostic>)
        requires
            old(self).wf(),
        ensures
            final(self).wf(),
            final(self).depth() == old(self).depth(),
            keeps_block_aliases(*old(self), *final(self)),
            final(self).scopes@ == old(self).scopes@,
            final(self).local_constant_scopes@ == old(self).local_constant_scopes@,
            final(self).closure_scopes@ == old(self).closure_scopes@,
            final(self).type_scope_changes@.drop_last() == old(self).type_scope_changes@.drop_last(),
            ({
                let conflict = has_key(old(self).current_locals(), name@) || has_key(
                    old(self).current_closures(),
                    name@,
                ) || has_key(old(self).current_constants(), name@);
                &&& conflict ==> (r matches Err(d) && d.kind == DiagnosticKind::Semantic && d.message@ == redeclared_message(name@))
                &&& !conflict && old(self).depth() == 0 ==> (r matches Err(d) && d.kind == DiagnosticKind::Backend)
                &&& !conflict && old(self).depth() > 0 && has_key(old(self).current_types(), name@) ==> (r matches Err(
                    d,
                ) && d.kind == DiagnosticKind::Semantic && d.message@ == redeclared_message(name@))
                &&& r is Err ==> final(self).type_aliases@ == old(self).type_aliases@ && final(self).type_scope_changes@ == old(self).type_scope_changes@
                &&& !conflict && old(self).depth() > 0 && !has_key(old(self).current_types(), name@) ==> (r is Ok
                    && (forall|n: Seq<char>|
                    #[trigger] entry(final(self).type_aliases@, n) == if n == name@ {
                        Some(ty)
                    } else {
                        entry(old(self).type_aliases@, n)
                    }) && (forall|n: Seq<char>|
                    #[trigger] entry(final(self).current_types(), n) == if n == name@ {
                        Some(entry(old(self).type_aliases@, name@))
                    } else {
                        entry(old(self).current_types(), n)
                    }))
            }),
    {
        if self.lookup_current_local(name.as_str()).is_some() || Self::current_has(&self.closure_scopes, name.as_str())
            || Self::current_has(&self.local_constant_scopes, name.as_str()) {
            return Err(Diagnostic::redeclared(name.as_str(), source));
        }
        if self.type_scope_changes.len() == 0 {
            return Err(Diagnostic::backend("function has no local type scope"));
        }
        if Self::current_has(&self.type_scope_changes, name.as_str()) {
            return Err(Diagnostic::redeclared(name.as_str(), source));
        }
        let mut level = self.type_scope_changes.pop().unwrap();
        let ghost before = level@;
        proof {
            assert(before == old(self).type_scope_changes@[old(self).depth() - 1]@);
        }
        let previous = insert_entry(&mut self.type_aliases, name.clone(), ty);
        insert_entry(&mut level, name, previous);
        self.type_scope_changes.push(level);
        proof {
            assert(self.type_scope_changes@.drop_last() =~= old(self).type_scope_changes@.drop_last());
            assert forall|i: int| 0 <= i < self.scopes@.len() implies unique_keys(#[trigger] self.type_scope_changes@[i]@) by {
                if i < self.scopes@.len() - 1 {
                    assert(self.type_scope_changes@[i] == old(self).type_scope_changes@[i]);
                }
            }
        }
        Ok(())
    }

    /// Allocates the identity of a type declared in the function.
    pub fn alloc_local_type_identity(&mut self) -> (r: Result<LocalTypeId, Diagnostic>)
        ensures
            old(self).next_local_type < u32::MAX ==> r == Ok::<LocalTypeId, Diagnostic>(
                LocalTypeId { owner: old(self).owner, local: old(self).next_local_type },
            ) && final(self).next_local_type == old(self).next_local_type + 1,
            old(self).next_local_type == u32::MAX ==> (r matches Err(d) && d.kind == DiagnosticKind::Backend)
                && final(self).next_local_type == old(self).next_local_type,
            final(self).owner == old(self).owner,
            final(self).locals@ == old(self).locals@,
            final(self).scopes@ == old(self).scopes@,
    {
        let local = self.next_local_type;
        if self.next_local_type == u32::MAX {
            return Err(Diagnostic::backend("function exceeds the local type ID space"));
        }
        self.next_local_type = self.next_local_type + 1;
        Ok(LocalTypeId { owner: self.owner, local })
    }

    /// The source that a new item records: the override while one is set.
    pub open spec fn recorded_source(&self, source: SyntaxSource) -> SyntaxSource {
        match self.source_override {
            Some(s) => s,
            None => source,
        }
    }

    /// The type of a place: the declared type of its local.  The blank
    /// identifier has none.
    pub fn place_ty(&self, place: Place) -> (r: Result<&Ty, Diagnostic>)
        ensures
            match place {
                Place::Local(id) => if (id.0 as int) < self.locals@.len() {
                    r matches Ok(t) && *t == self.locals@[id.0 as int].ty
                } else {
                    r matches Err(d) && d.kind == DiagnosticKind::Backend && d.message@ == "invalid local id "@
                        + int_spelling(id.0 as int)
                },
                Place::Discard => r matches Err(d) && d.kind == DiagnosticKind::Backend && d.message@
                    == "blank identifier unexpectedly required an inferred type"@,
            },
    {
        match place {
            Place::Local(id) => {
                let index = id.0 as usize;
                if index < self.locals.len() {
                    Ok(&self.locals[index].ty)
                } else {
                    let mut message = String::from_str("invalid local id ");
                    let spelled = u64_spelling(id.0 as u64);
                    message.append(spelled.as_str());
                    Err(Diagnostic { kind: DiagnosticKind::Backend, message, source: None })
                }
            },
            Place::Discard => Err(Diagnostic::backend("blank identifier unexpectedly required an inferred type")),
        }
    }

    /// Allocates a node of the function's lowered code and records its
    /// source.
    pub fn alloc_node(&mut self, source: SyntaxSource) -> (r: Result<NodeId, Diagnostic>)
        requires
            old(self).wf(),
        ensures
            final(self).wf(),
            old(self).next_node < u32::MAX ==> r == Ok::<NodeId, Diagnostic>(
                NodeId { owner: old(self).owner, local: old(self).next_node },
            ) && final(self).next_node == old(self).next_node + 1 && final(self).source_plan@ == old(self).source_plan@.push((SourceRef::Node(NodeId { owner: old(self).owner, local: old(self).next_node }), old(self).recorded_source(source))),
            old(self).next_node == u32::MAX ==> (r matches Err(d) && d.kind == DiagnosticKind::Backend) && final(self).source_plan@ == old(self).source_plan@,
            r is Err ==> *final(self) == *old(self),
            *final(self) == (FunctionLowerer {
                next_node: final(self).next_node,
                source_plan: final(self).source_plan,
                ..*old(self)
            }),
            final(self).owner == old(self).owner,
            final(self).locals@ == old(self).locals@,
            final(self).scopes@ == old(self).scopes@,
    {
        let local = self.next_node;
        if self.next_node == u32::MAX {
            return Err(Diagnostic::backend("function exceeds the node ID space"));
        }
        self.next_node = self.next_node + 1;
        let node = NodeId { owner: self.owner, local };
        let recorded = match self.source_override {
            Some(s) => s,
            None => source,
        };
        self.source_plan.push((SourceRef::Node(node), recorded));
        Ok(node)
    }
}

/// A read of a local variable, standing at a node of the lowered code.
pub open spec fn local_read(node: NodeId, local: LocalId, ty: Ty) -> Expr {
    Expr {
        node: node.local as u64,
        kind: ExprKind::Local(local.0 as u64),
        ty,
        category: ValueCategory::Place,
        effects: Effects {
            may_call: false,
            may_allocate: false,
            may_block: false,
            may_panic: false,
            may_read: true,
            may_write: false,
        },
        source: SourceRef::Node(node),
    }
}

impl FunctionLowerer {
    /// The expression that reads a local variable at a node.
    pub fn local_expr(&self, node: NodeId, local: LocalId, ty: Ty) -> (r: Expr)
        ensures
            r == local_read(node, local, ty),
    {
        Expr {
            node: node.local as u64,
            kind: ExprKind::Local(local.0 as u64),
            ty,
            category: ValueCategory::Place,
            effects: Effects {
                may_call: false,
                may_allocate: false,
                may_block: false,
                may_panic: false,
                may_read: true,
                may_write: false,
            },
            source: SourceRef::Node(node),
        }
    }
}

impl FunctionLowerer {
    /// A bound of a slice expression: the given bound coerced to `int`, or
    /// the constant `-1`, on a node of its own, for a bound that is left out.
    pub fn lower_optional_slice_bound(&mut self, bound: Option<Expr>, syntax_source: SyntaxSource) -> (r: Result<
        Expr,
        Diagnostic,
    >)
        requires
            old(self).wf(),
            bound matches Some(b) ==> b.wf(),
        ensures
            final(self).wf(),
            final(self).owner == old(self).owner,
            final(self).locals@ == old(self).locals@,
            final(self).scopes@ == old(self).scopes@,
            bound matches Some(b) ==> (r is Ok <==> coercible(b, Ty::Int(IntTy::Int))) && final(self).next_node
                == old(self).next_node && (r matches Ok(e) ==> coerced_from(e, b, Ty::Int(IntTy::Int))),
            bound is None && old(self).next_node < u32::MAX ==> (r matches Ok(e) && e.wf() && e.ty == Ty::Int(
                IntTy::Int,
            ) && (e.spec_constant() matches Some(ConstValue::Int(s)) && s@ == "-1"@) && e.node
                == old(self).next_node as u64 && e.source == SourceRef::Node(
                NodeId { owner: old(self).owner, local: old(self).next_node },
            ) && e.category == ValueCategory::Constant && e.effects == Effects::spec_none()),
            bound is None ==> (r matches Err(d) ==> d.kind == DiagnosticKind::Backend),
    {
        if let Some(bound) = bound {
            let mut bound = bound;
            let source = bound.source;
            coerce_expr(&mut bound, &Ty::Int(IntTy::Int), source)?;
            return Ok(bound);
        }
        let node = self.alloc_node(syntax_source)?;
        let spelling = String::from_str("-1");
        proof {
            reveal_strlit("-1");
            lemma_int_spelling_roundtrip(-1);
            assert(spelling@ =~= int_spelling(-1));
        }
        Ok(
            Expr {
                node: node.local as u64,
                kind: ExprKind::Constant(ConstValue::Int(spelling)),
                ty: Ty::Int(IntTy::Int),
                category: ValueCategory::Constant,
                effects: Effects::none(),
                source: SourceRef::Node(node),
            },
        )
    }
}

/// The locals from `start` on are the declared slots, in order, with the
/// given types and kind.
pub open spec fn slots_declared(locals: Seq<Local>, start: int, ids: Seq<LocalId>, types: Seq<Ty>, kind: LocalKind) -> bool {
    forall|i: int|
        0 <= i < ids.len() ==> (#[trigger] ids[i]).0 == start + i && locals[start + i].ty == types[i] && locals[start
            + i].kind == kind
}

proof fn lemma_slots_extend(
    before: Seq<Local>,
    after: Seq<Local>,
    start: int,
    ids: Seq<LocalId>,
    id: LocalId,
    types: Seq<Ty>,
    kind: LocalKind,
)
    requires
        slots_declared(before, start, ids, types, kind),
        0 <= start,
        before.len() == start + ids.len(),
        after.len() == before.len() + 1,
        after.drop_last() == before,
        id.0 == before.len(),
        ids.len() < types.len(),
        after.last().ty == types[ids.len() as int],
        after.last().kind == kind,
    ensures
        slots_declared(after, start, ids.push(id), types, kind),
{
    let t = ids.push(id);
    assert forall|i: int| 0 <= i < t.len() implies (#[trigger] t[i]).0 == start + i && after[start + i].ty == types[i]
        && after[start + i].kind == kind by {
        if i < ids.len() {
            assert(t[i] == ids[i]);
            assert(after[start + i] == after.drop_last()[start + i]);
        }
    }
}

/// The type is the defined type of that declaration.
pub open spec fn names_definition(t: Ty, definition: u64) -> bool {
    match t {
        Ty::Named { definition: d, .. } => d == definition,
        _ => false,
    }
}

/// The index of the local that a result slot declares.
pub open spec fn slot_local(slot: Option<LocalId>) -> int {
    match slot {
        Some(id) => id.0 as int,
        None => 0,
    }
}

/// The binding slots that a field list declares: one per name, one for a
/// field without names.
pub open spec fn slot_count(fields: Seq<FieldSyntax>) -> int
    decreases fields.len(),
{
    if fields.len() == 0 {
        0
    } else {
        slot_count(fields.drop_last()) + match fields.last().names {
            Some(names) => names@.len() as int,
            None => 1,
        }
    }
}

proof fn lemma_slot_count_step(fields: Seq<FieldSyntax>, i: int)
    requires
        0 <= i < fields.len(),
    ensures
        slot_count(fields.take(i + 1)) == slot_count(fields.take(i)) + match fields[i].names {
            Some(names) => names@.len() as int,
            None => 1,
        },
        slot_count(fields.take(i)) >= 0,
{
    assert(fields.take(i + 1).drop_last() =~= fields.take(i));
    lemma_slot_count_nonneg(fields.take(i));
}

proof fn lemma_slot_count_nonneg(fields: Seq<FieldSyntax>)
    ensures
        slot_count(fields) >= 0,
    decreases fields.len(),
{
    if fields.len() > 0 {
        lemma_slot_count_nonneg(fields.drop_last());
    }
}

proof fn lemma_slot_count_prefix(fields: Seq<FieldSyntax>, i: int)
    requires
        0 <= i <= fields.len(),
    ensures
        slot_count(fields.take(i)) <= slot_count(fields),
    decreases fields.len() - i,
{
    if i < fields.len() {
        lemma_slot_count_step(fields, i);
        lemma_slot_count_prefix(fields, i + 1);
    } else {
        assert(fields.take(i) =~= fields);
    }
}

/// The slots a field contributes: one per name, or one unnamed slot.
pub open spec fn field_piece(f: FieldSyntax) -> Seq<Option<Seq<char>>> {
    match f.names {
        Some(names) => names@.map_values(|n: IdentSyntax| Some(n.name@)),
        None => seq![None],
    }
}

/// The slots a list of fields declares, in order: the name of each name,
/// and `None` for a field without names.
pub open spec fn field_slots(fields: Seq<FieldSyntax>) -> Seq<Option<Seq<char>>>
    decreases fields.len(),
{
    if fields.len() == 0 {
        Seq::empty()
    } else {
        field_slots(fields.drop_last()) + field_piece(fields.last())
    }
}

/// The number of named slots.
pub open spec fn named_count(slots: Seq<Option<Seq<char>>>) -> int
    decreases slots.len(),
{
    if slots.len() == 0 {
        0
    } else {
        named_count(slots.drop_last()) + if slots.last() is Some {
            1int
        } else {
            0
        }
    }
}

/// Slot `i` can be declared by a lowerer in state `lw` after the slots
/// before it: a name other than `_` needs an open block that declares no
/// type, constant, closure or local of that name, and no earlier slot of
/// that name.
pub open spec fn slot_declarable(lw: FunctionLowerer, slots: Seq<Option<Seq<char>>>, i: int) -> bool {
    slots[i] matches Some(n) ==> (n != "_"@ ==> {
        &&& lw.depth() > 0
        &&& !has_key(lw.current_types(), n)
        &&& !has_key(lw.current_constants(), n)
        &&& !has_key(lw.current_closures(), n)
        &&& !has_key(lw.current_locals(), n)
        &&& forall|j: int| 0 <= j < i ==> slots[j] != Some(n)
    })
}

/// The fields of a parameter or receiver list can all be declared: there
/// are types for all their slots, each field without names has a type,
/// the local identities suffice, and every slot is declarable.
pub open spec fn fields_declarable(lw: FunctionLowerer, fields: Seq<FieldSyntax>, types: int) -> bool {
    &&& slot_count(fields) <= types
    &&& forall|f: int| 0 <= f < fields.len() ==> ((#[trigger] fields[f]).names is None ==> fields[f].ty is Some)
    &&& slot_count(fields) > 0 ==> lw.locals@.len() + slot_count(fields) <= u32::MAX + 1
    &&& forall|i: int| 0 <= i < slot_count(fields) ==> #[trigger] slot_declarable(lw, field_slots(fields), i)
}

/// The named results of a list can all be declared: there are types for
/// all its slots, the local identities suffice for the named ones, and
/// every slot is declarable.
pub open spec fn results_declarable(lw: FunctionLowerer, fields: Seq<FieldSyntax>, types: int) -> bool {
    &&& slot_count(fields) <= types
    &&& named_count(field_slots(fields)) > 0 ==> lw.locals@.len() + named_count(field_slots(fields)) <= u32::MAX + 1
    &&& forall|i: int| 0 <= i < slot_count(fields) ==> #[trigger] slot_declarable(lw, field_slots(fields), i)
}

/// One of the first `k` slots declares the name.
pub open spec fn named_before(slots: Seq<Option<Seq<char>>>, k: int, name: Seq<char>) -> bool {
    name != "_"@ && exists|j: int| 0 <= j < k && slots[j] == Some(name)
}

proof fn lemma_field_slots_len(fields: Seq<FieldSyntax>)
    ensures
        field_slots(fields).len() == slot_count(fields),
    decreases fields.len(),
{
    if fields.len() > 0 {
        lemma_field_slots_len(fields.drop_last());
    }
}

/// The slots of the first `i` fields are the first slots of all fields.
proof fn lemma_field_slots_prefix(fields: Seq<FieldSyntax>, i: int, k: int)
    requires
        0 <= i <= fields.len(),
        0 <= k < slot_count(fields.take(i)),
    ensures
        field_slots(fields)[k] == field_slots(fields.take(i))[k],
    decreases fields.len() - i,
{
    lemma_field_slots_len(fields.take(i));
    if i < fields.len() {
        assert(fields.take(i + 1).drop_last() =~= fields.take(i));
        lemma_slot_count_step(fields, i);
        lemma_field_slots_len(fields.take(i + 1));
        lemma_field_slots_prefix(fields, i + 1, k);
    } else {
        assert(fields.take(i) =~= fields);
    }
}

/// Name `j` of field `f` is slot `slot_count(fields.take(f)) + j`.
proof fn lemma_field_slot_name(fields: Seq<FieldSyntax>, f: int, j: int)
    requires
        0 <= f < fields.len(),
        fields[f].names matches Some(names) && 0 <= j < names@.len(),
    ensures
        field_slots(fields)[slot_count(fields.take(f)) + j] == Some(fields[f].names->0@[j].name@),
        slot_count(fields.take(f)) + j < slot_count(fields),
{
    lemma_slot_count_step(fields, f);
    lemma_slot_count_prefix(fields, f + 1);
    assert(fields.take(f + 1).drop_last() =~= fields.take(f));
    lemma_field_slots_len(fields.take(f));
    lemma_field_slots_prefix(fields, f + 1, slot_count(fields.take(f)) + j);
}

/// The unnamed field `f` is slot `slot_count(fields.take(f))`.
proof fn lemma_field_slot_unnamed(fields: Seq<FieldSyntax>, f: int)
    requires
        0 <= f < fields.len(),
        fields[f].names is None,
    ensures
        field_slots(fields)[slot_count(fields.take(f))] is None,
        slot_count(fields.take(f)) < slot_count(fields),
{
    lemma_slot_count_step(fields, f);
    lemma_slot_count_prefix(fields, f + 1);
    assert(fields.take(f + 1).drop_last() =~= fields.take(f));
    lemma_field_slots_len(fields.take(f));
    lemma_field_slots_prefix(fields, f + 1, slot_count(fields.take(f)));
}

/// Counting the named slots of a longer prefix.
proof fn lemma_named_count_step(slots: Seq<Option<Seq<char>>>, k: int)
    requires
        0 <= k < slots.len(),
    ensures
        named_count(slots.take(k + 1)) == named_count(slots.take(k)) + if slots[k] is Some {
            1int
        } else {
            0
        },
        named_count(slots.take(k)) >= 0,
{
    assert(slots.take(k + 1).drop_last() =~= slots.take(k));
    lemma_named_count_nonneg(slots.take(k));
}

proof fn lemma_named_count_nonneg(slots: Seq<Option<Seq<char>>>)
    ensures
        named_count(slots) >= 0,
    decreases slots.len(),
{
    if slots.len() > 0 {
        lemma_named_count_nonneg(slots.drop_last());
    }
}

proof fn lemma_named_count_prefix(slots: Seq<Option<Seq<char>>>, k: int)
    requires
        0 <= k <= slots.len(),
    ensures
        named_count(slots.take(k)) <= named_count(slots),
    decreases slots.len() - k,
{
    if k < slots.len() {
        lemma_named_count_step(slots, k);
        lemma_named_count_prefix(slots, k + 1);
    } else {
        assert(slots.take(k) =~= slots);
    }
}

impl FunctionLowerer {
    /// Allocates a local variable.  A name other than `_` is declared in
    /// the innermost block, unless the block already declares it (as a
    /// type, constant or closure: rejected before; as a local: rejected
    /// after the entry is replaced).
    pub fn alloc_local(&mut self, name: Option<String>, ty: Ty, kind: LocalKind, syntax_source: SyntaxSource) -> (r:
        Result<LocalId, Diagnostic>)
        requires
            old(self).wf(),
        ensures
            final(self).wf(),
            final(self).depth() == old(self).depth(),
            keeps_block_aliases(*old(self), *final(self)),
            final(self).owner == old(self).owner,
            final(self).local_constant_scopes@ == old(self).local_constant_scopes@,
            final(self).closure_scopes@ == old(self).closure_scopes@,
            final(self).type_scope_changes@ == old(self).type_scope_changes@,
            final(self).type_aliases@ == old(self).type_aliases@,
            final(self).scopes@.drop_last() == old(self).scopes@.drop_last(),
            ({
                let named = name matches Some(n) && n@ != "_"@;
                let n = match name {
                    Some(n) => n@,
                    None => Seq::empty(),
                };
                let conflict = named && (has_key(old(self).current_types(), n) || has_key(
                    old(self).current_constants(),
                    n,
                ) || has_key(old(self).current_closures(), n));
                &&& old(self).locals@.len() > u32::MAX ==> (r matches Err(d) && d.kind == DiagnosticKind::Backend)
                &&& old(self).locals@.len() <= u32::MAX && conflict ==> (r matches Err(d) && d.kind
                    == DiagnosticKind::Semantic && d.message@ == redeclared_message(n))
                &&& old(self).locals@.len() <= u32::MAX && !conflict && named && old(self).depth() > 0 && has_key(
                    old(self).current_locals(),
                    n,
                ) ==> (r matches Err(d) && d.kind == DiagnosticKind::Semantic && d.message@ == redeclared_message(n))
                &&& old(self).locals@.len() <= u32::MAX && !conflict && named ==> (r is Ok <==> (old(self).depth() > 0
                    && !has_key(old(self).current_locals(), n)))
                &&& old(self).locals@.len() <= u32::MAX && !conflict && !named ==> r is Ok
                &&& old(self).locals@.len() <= u32::MAX && !conflict && named && old(self).depth() > 0 ==> forall|m: Seq<char>|
                    #[trigger] entry(final(self).current_locals(), m) == if m == n {
                        Some(LocalId(old(self).locals@.len() as u32))
                    } else {
                        entry(old(self).current_locals(), m)
                    }
                &&& r is Ok ==> old(self).locals@.len() <= u32::MAX
                &&& r matches Ok(id) ==> id == LocalId(old(self).locals@.len() as u32) && final(self).locals@.len()
                    == old(self).locals@.len() + 1 && final(self).locals@.drop_last() == old(self).locals@ && final(
                    self).locals@.last().ty == ty && final(self).locals@.last().kind == kind && final(self).locals@.last().id == id
                    && final(self).locals@.last().source == SourceRef::Local(old(self).owner, id)
                &&& r is Ok && !named ==> final(self).scopes@ == old(self).scopes@
                &&& r is Err ==> final(self).locals@ == old(self).locals@
            }),
    {
        if self.locals.len() > 4294967295usize {
            return Err(Diagnostic::backend("function exceeds the local ID space"));
        }
        let id = LocalId(self.locals.len() as u32);
        let source = SourceRef::Local(self.owner, id);
        if let Some(n) = &name {
            if *n != String::from_str("_") {
                if Self::current_has(&self.type_scope_changes, n.as_str()) || Self::current_has(
                    &self.local_constant_scopes,
                    n.as_str(),
                ) {
                    return Err(Diagnostic::redeclared(n.as_str(), source));
                }
                if Self::current_has(&self.closure_scopes, n.as_str()) {
                    return Err(Diagnostic::redeclared(n.as_str(), source));
                }
                if self.scopes.len() == 0 {
                    return Err(Diagnostic::backend("function has no lexical scope"));
                }
                let mut level = self.scopes.pop().unwrap();
                let ghost before = level@;
                proof {
                    assert(before == old(self).scopes@[old(self).depth() - 1]@);
                }
                let previous = insert_entry(&mut level, n.clone(), id);
                self.scopes.push(level);
                proof {
                    assert(self.scopes@.drop_last() =~= old(self).scopes@.drop_last());
                    assert forall|i: int| 0 <= i < self.scopes@.len() implies unique_keys(#[trigger] self.scopes@[i]@) by {
                        if i < self.scopes@.len() - 1 {
                            assert(self.scopes@[i] == old(self).scopes@[i]);
                        }
                    }
                }
                if previous.is_some() {
                    return Err(Diagnostic::redeclared(n.as_str(), source));
                }
            }
        }
        proof {
            assert(self.scopes@.drop_last() =~= old(self).scopes@.drop_last());
        }
        let recorded = match self.source_override {
            Some(s) => s,
            None => syntax_source,
        };
        self.locals.push(Local { id, name, ty, kind, source });
        self.source_plan.push((source, recorded));
        proof {
            assert(self.locals@.drop_last() =~= old(self).locals@);
        }
        Ok(id)
    }

    /// Declares the parameters (or receivers) of a signature, one local per
    /// name and one unnamed local per field without names, taking their
    /// types in order.
    pub fn declare_field_bindings(&mut self, fields: &FieldListSyntax, types: &[Ty], kind: LocalKind) -> (r: Result<
        Vec<LocalId>,
        Diagnostic,
    >)
        requires
            old(self).wf(),
        ensures
            final(self).wf(),
            final(self).depth() == old(self).depth(),
            final(self).owner == old(self).owner,
            types@.len() < slot_count(fields.fields@) ==> r is Err,
            r is Ok <==> fields_declarable(*old(self), fields.fields@, types@.len() as int),
            r matches Ok(ids) ==> ids@.len() == slot_count(fields.fields@) && final(self).locals@.len()
                == old(self).locals@.len() + ids@.len() && final(self).locals@.take(old(self).locals@.len() as int)
                == old(self).locals@ && slots_declared(
                final(self).locals@,
                old(self).locals@.len() as int,
                ids@,
                types@,
                kind,
            ),
    {
        let ghost start = old(self).locals@;
        let ghost lw0 = *old(self);
        let ghost slots = field_slots(fields.fields@);
        let mut result: Vec<LocalId> = Vec::new();
        let mut type_index: usize = 0;
        let mut f: usize = 0;
        proof {
            assert(fields.fields@.take(0) =~= Seq::<FieldSyntax>::empty());
            assert(self.locals@.take(start.len() as int) =~= start);
            lemma_field_slots_len(fields.fields@);
        }
        while f < fields.fields.len()
            invariant
                self.wf(),
                self.depth() == old(self).depth(),
                self.owner == old(self).owner,
                lw0 == *old(self),
                slots == field_slots(fields.fields@),
                slots.len() == slot_count(fields.fields@),
                start == old(self).locals@,
                f <= fields.fields@.len(),
                type_index == result@.len(),
                type_index == slot_count(fields.fields@.take(f as int)),
                type_index <= types@.len(),
                self.locals@.len() == start.len() + result@.len(),
                self.locals@.take(start.len() as int) == start,
                slots_declared(self.locals@, start.len() as int, result@, types@, kind),
                self.type_scope_changes@ == old(self).type_scope_changes@,
                self.local_constant_scopes@ == old(self).local_constant_scopes@,
                self.closure_scopes@ == old(self).closure_scopes@,
                type_index > 0 ==> self.locals@.len() <= u32::MAX + 1,
                forall|g: int| 0 <= g < f ==> ((#[trigger] fields.fields@[g]).names is None ==> fields.fields@[g].ty is Some),
                forall|i: int| 0 <= i < type_index ==> #[trigger] slot_declarable(lw0, slots, i),
                forall|m: Seq<char>| #[trigger] has_key(self.current_locals(), m) ==> has_key(lw0.current_locals(), m)
                    || named_before(slots, type_index as int, m),
                forall|m: Seq<char>| has_key(lw0.current_locals(), m) ==> #[trigger] has_key(self.current_locals(), m),
                forall|m: Seq<char>| #[trigger] named_before(slots, type_index as int, m) ==> has_key(self.current_locals(), m),
            decreases fields.fields@.len() - f,
        {
            let field = &fields.fields[f];
            proof {
                lemma_slot_count_step(fields.fields@, f as int);
                lemma_slot_count_prefix(fields.fields@, f + 1);
            }
            match &field.names {
                Some(names) => {
                    let mut j: usize = 0;
                    while j < names.len()
                        invariant
                            self.wf(),
                            self.depth() == old(self).depth(),
                            self.owner == old(self).owner,
                            lw0 == *old(self),
                            slots == field_slots(fields.fields@),
                            slots.len() == slot_count(fields.fields@),
                            start == old(self).locals@,
                            j <= names@.len(),
                            fields.fields@[f as int].names == Some(*names),
                            type_index == result@.len(),
                            type_index == slot_count(fields.fields@.take(f as int)) + j,
                            slot_count(fields.fields@.take(f as int)) + names@.len() == slot_count(fields.fields@.take(f + 1)),
                            f < fields.fields@.len(),
                            type_index <= types@.len(),
                            self.locals@.len() == start.len() + result@.len(),
                            self.locals@.take(start.len() as int) == start,
                            slots_declared(self.locals@, start.len() as int, result@, types@, kind),
                            self.type_scope_changes@ == old(self).type_scope_changes@,
                            self.local_constant_scopes@ == old(self).local_constant_scopes@,
                            self.closure_scopes@ == old(self).closure_scopes@,
                            type_index > 0 ==> self.locals@.len() <= u32::MAX + 1,
                            forall|i: int| 0 <= i < type_index ==> #[trigger] slot_declarable(lw0, slots, i),
                            forall|m: Seq<char>| #[trigger] has_key(self.current_locals(), m) ==> has_key(lw0.current_locals(), m)
                                || named_before(slots, type_index as int, m),
                            forall|m: Seq<char>| has_key(lw0.current_locals(), m) ==> #[trigger] has_key(self.current_locals(), m),
                            forall|m: Seq<char>| #[trigger] named_before(slots, type_index as int, m) ==> has_key(self.current_locals(), m),
                        decreases names@.len() - j,
                    {
                        proof {
                            lemma_field_slot_name(fields.fields@, f as int, j as int);
                        }
                        if type_index >= types.len() {
                            return Err(Diagnostic::backend("signature field mismatch"));
                        }
                        let ty = types[type_index].clone();
                        let ghost lw = *self;
                        let ghost k = type_index as int;
                        let ghost n = names@[j as int].name@;
                        assert(slots[k] == Some(n));
                        let ghost before = self.locals@;
                        let ghost prior = result@;
                        let allocated = self.alloc_local(Some(names[j].name.clone()), ty, kind, names[j].source);
                        let id = match allocated {
                            Ok(id) => id,
                            Err(d) => {
                                proof {
                                    assert(lw.current_types() == lw0.current_types());
                                    assert(lw.current_constants() == lw0.current_constants());
                                    assert(lw.current_closures() == lw0.current_closures());
                                    if lw.locals@.len() > u32::MAX {
                                        assert(k + 1 <= slot_count(fields.fields@));
                                    } else {
                                        if n != "_"@ && lw.depth() > 0 && has_key(lw.current_locals(), n) && !has_key(lw0.current_locals(), n) {
                                            assert(named_before(slots, k, n));
                                            let w = choose|w: int| 0 <= w < k && slots[w] == Some(n);
                                            assert(slots[w] == Some(n));
                                        }
                                        assert(!slot_declarable(lw0, slots, k));
                                    }
                                    assert(!fields_declarable(lw0, fields.fields@, types@.len() as int));
                                }
                                return Err(d);
                            },
                        };
                        type_index += 1;
                        result.push(id);
                        proof {
                            lemma_slots_extend(before, self.locals@, start.len() as int, prior, id, types@, kind);
                            assert(self.locals@.take(start.len() as int) =~= before.take(start.len() as int));
                            assert(lw.current_types() == lw0.current_types());
                            assert(lw.current_constants() == lw0.current_constants());
                            assert(lw.current_closures() == lw0.current_closures());
                            assert forall|w: int| 0 <= w < k && n != "_"@ implies slots[w] != Some(n) by {
                                if slots[w] == Some(n) {
                                    assert(named_before(slots, k, n));
                                }
                            }
                            assert(slot_declarable(lw0, slots, k));
                            assert forall|m: Seq<char>| #[trigger] has_key(self.current_locals(), m) implies has_key(
                                lw0.current_locals(),
                                m,
                            ) || named_before(slots, k + 1, m) by {
                                if n != "_"@ && m == n {
                                    assert(slots[k] == Some(m));
                                } else if has_key(lw.current_locals(), m) {
                                    if named_before(slots, k, m) {
                                        let w = choose|w: int| 0 <= w < k && slots[w] == Some(m);
                                        assert(slots[w] == Some(m));
                                    }
                                } else {
                                    assert(entry(self.current_locals(), m) == entry(lw.current_locals(), m));
                                }
                            }
                            assert forall|m: Seq<char>| has_key(lw0.current_locals(), m) implies #[trigger] has_key(
                                self.current_locals(),
                                m,
                            ) by {
                                if n != "_"@ {
                                    if m != n {
                                        assert(entry(self.current_locals(), m) == entry(lw.current_locals(), m));
                                    }
                                }
                            }
                            assert forall|m: Seq<char>| #[trigger] named_before(slots, k + 1, m) implies has_key(
                                self.current_locals(),
                                m,
                            ) by {
                                let w = choose|w: int| 0 <= w < k + 1 && slots[w] == Some(m);
                                if w < k {
                                    assert(named_before(slots, k, m));
                                    if m != n {
                                        assert(entry(self.current_locals(), m) == entry(lw.current_locals(), m));
                                    }
                                }
                            }
                        }
                        j += 1;
                    }
                },
                None => {
                    proof {
                        lemma_field_slot_unnamed(fields.fields@, f as int);
                    }
                    if type_index >= types.len() {
                        return Err(Diagnostic::backend("signature field mismatch"));
                    }
                    let ty = types[type_index].clone();
                    let syntax_source = match &field.ty {
                        Some(t) => t.source,
                        None => {
                            proof {
                                assert(fields.fields@[f as int].names is None && fields.fields@[f as int].ty is None);
                            }
                            return Err(Diagnostic::backend("unnamed signature field has no type"));
                        },
                    };
                    let ghost lw = *self;
                    let ghost k = type_index as int;
                    let ghost before = self.locals@;
                    let ghost prior = result@;
                    let allocated = self.alloc_local(None, ty, kind, syntax_source);
                    let id = match allocated {
                        Ok(id) => id,
                        Err(d) => {
                            proof {
                                assert(k + 1 <= slot_count(fields.fields@));
                                assert(!fields_declarable(lw0, fields.fields@, types@.len() as int));
                            }
                            return Err(d);
                        },
                    };
                    type_index += 1;
                    result.push(id);
                    proof {
                        lemma_slots_extend(before, self.locals@, start.len() as int, prior, id, types@, kind);
                        assert(self.locals@.take(start.len() as int) =~= before.take(start.len() as int));
                        assert(slot_declarable(lw0, slots, k));
                        assert(self.current_locals() == lw.current_locals());
                        assert forall|m: Seq<char>| #[trigger] named_before(slots, k + 1, m) implies named_before(slots, k, m) by {
                            let w = choose|w: int| 0 <= w < k + 1 && slots[w] == Some(m);
                            assert(w != k);
                        }
                        assert forall|m: Seq<char>| #[trigger] named_before(slots, k, m) implies named_before(slots, k + 1, m) by {
                            let w = choose|w: int| 0 <= w < k && slots[w] == Some(m);
                            assert(slots[w] == Some(m));
                        }
                    }
                },
            }
            f += 1;
        }
        proof {
            assert(fields.fields@.take(f as int) =~= fields.fields@);
        }
        Ok(result)
    }

    /// Declares the named results of a signature: a local for each name,
    /// nothing for an unnamed result.
    pub fn declare_result_bindings(&mut self, fields: &FieldListSyntax, types: &[Ty]) -> (r: Result<
        Vec<Option<LocalId>>,
        Diagnostic,
    >)
        requires
            old(self).wf(),
        ensures
            final(self).wf(),
            final(self).depth() == old(self).depth(),
            types@.len() < slot_count(fields.fields@) ==> r is Err,
            r is Ok <==> results_declarable(*old(self), fields.fields@, types@.len() as int),
            r matches Ok(ids) ==> ids@.len() == slot_count(fields.fields@) && final(self).locals@.take(
                old(self).locals@.len() as int,
            ) == old(self).locals@ && forall|i: int|
                0 <= i < ids@.len() && (#[trigger] ids@[i]) is Some ==> final(self).locals@[slot_local(ids@[i])].ty
                    == types@[i] && final(self).locals@[slot_local(ids@[i])].kind == LocalKind::NamedResult,
            r matches Ok(ids) ==> forall|i: int|
                0 <= i < ids@.len() ==> ((#[trigger] ids@[i]) is Some <==> field_slots(fields.fields@)[i] is Some),
    {
        let ghost start = old(self).locals@;
        let ghost lw0 = *old(self);
        let ghost slots = field_slots(fields.fields@);
        let mut result: Vec<Option<LocalId>> = Vec::new();
        let mut type_index: usize = 0;
        let mut f: usize = 0;
        proof {
            assert(fields.fields@.take(0) =~= Seq::<FieldSyntax>::empty());
            assert(self.locals@.take(start.len() as int) =~= start);
            lemma_field_slots_len(fields.fields@);
            assert(slots.take(0) =~= Seq::<Option<Seq<char>>>::empty());
        }
        while f < fields.fields.len()
            invariant
                self.wf(),
                self.depth() == old(self).depth(),
                lw0 == *old(self),
                slots == field_slots(fields.fields@),
                slots.len() == slot_count(fields.fields@),
                start == old(self).locals@,
                f <= fields.fields@.len(),
                type_index == result@.len(),
                type_index == slot_count(fields.fields@.take(f as int)),
                type_index <= types@.len(),
                self.locals@.len() == start.len() + named_count(slots.take(type_index as int)),
                self.locals@.take(start.len() as int) == start,
                forall|i: int|
                    0 <= i < result@.len() && (#[trigger] result@[i]) is Some ==> slot_local(result@[i]) < self.locals@.len()
                        && self.locals@[slot_local(result@[i])].ty == types@[i] && self.locals@[slot_local(result@[i])].kind
                        == LocalKind::NamedResult,
                forall|i: int| 0 <= i < result@.len() ==> ((#[trigger] result@[i]) is Some <==> slots[i] is Some),
                self.type_scope_changes@ == old(self).type_scope_changes@,
                self.local_constant_scopes@ == old(self).local_constant_scopes@,
                self.closure_scopes@ == old(self).closure_scopes@,
                named_count(slots.take(type_index as int)) > 0 ==> self.locals@.len() <= u32::MAX + 1,
                forall|i: int| 0 <= i < type_index ==> #[trigger] slot_declarable(lw0, slots, i),
                forall|m: Seq<char>| #[trigger] has_key(self.current_locals(), m) ==> has_key(lw0.current_locals(), m)
                    || named_before(slots, type_index as int, m),
                forall|m: Seq<char>| has_key(lw0.current_locals(), m) ==> #[trigger] has_key(self.current_locals(), m),
                forall|m: Seq<char>| #[trigger] named_before(slots, type_index as int, m) ==> has_key(self.current_locals(), m),
            decreases fields.fields@.len() - f,
        {
            let field = &fields.fields[f];
            proof {
                lemma_slot_count_step(fields.fields@, f as int);
                lemma_slot_count_prefix(fields.fields@, f + 1);
            }
            match &field.names {
                Some(names) => {
                    let mut j: usize = 0;
                    while j < names.len()
                        invariant
                            self.wf(),
                            self.depth() == old(self).depth(),
                            lw0 == *old(self),
                            slots == field_slots(fields.fields@),
                            slots.len() == slot_count(fields.fields@),
                            start == old(self).locals@,
                            j <= names@.len(),
                            fields.fields@[f as int].names == Some(*names),
                            type_index == result@.len(),
                            type_index == slot_count(fields.fields@.take(f as int)) + j,
                            slot_count(fields.fields@.take(f as int)) + names@.len() == slot_count(fields.fields@.take(f + 1)),
                            f < fields.fields@.len(),
                            type_index <= types@.len(),
                            self.locals@.len() == start.len() + named_count(slots.take(type_index as int)),
                            self.locals@.take(start.len() as int) == start,
                            forall|i: int|
                                0 <= i < result@.len() && (#[trigger] result@[i]) is Some ==> slot_local(result@[i])
                                    < self.locals@.len() && self.locals@[slot_local(result@[i])].ty == types@[i]
                                    && self.locals@[slot_local(result@[i])].kind == LocalKind::NamedResult,
                            forall|i: int| 0 <= i < result@.len() ==> ((#[trigger] result@[i]) is Some <==> slots[i] is Some),
                            self.type_scope_changes@ == old(self).type_scope_changes@,
                            self.local_constant_scopes@ == old(self).local_constant_scopes@,
                            self.closure_scopes@ == old(self).closure_scopes@,
                            named_count(slots.take(type_index as int)) > 0 ==> self.locals@.len() <= u32::MAX + 1,
                            forall|i: int| 0 <= i < type_index ==> #[trigger] slot_declarable(lw0, slots, i),
                            forall|m: Seq<char>| #[trigger] has_key(self.current_locals(), m) ==> has_key(lw0.current_locals(), m)
                                || named_before(slots, type_index as int, m),
                            forall|m: Seq<char>| has_key(lw0.current_locals(), m) ==> #[trigger] has_key(self.current_locals(), m),
                            forall|m: Seq<char>| #[trigger] named_before(slots, type_index as int, m) ==> has_key(self.current_locals(), m),
                        decreases names@.len() - j,
                    {
                        proof {
                            lemma_field_slot_name(fields.fields@, f as int, j as int);
                        }
                        if type_index >= types.len() {
                            return Err(Diagnostic::backend("result field mismatch"));
                        }
                        let ty = types[type_index].clone();
                        let ghost lw = *self;
                        let ghost k = type_index as int;
                        let ghost n = names@[j as int].name@;
                        assert(slots[k] == Some(n));
                        proof {
                            lemma_named_count_step(slots, k);
                            lemma_named_count_prefix(slots, k + 1);
                        }
                        let ghost before = self.locals@;
                        let allocated = self.alloc_local(
                            Some(names[j].name.clone()),
                            ty,
                            LocalKind::NamedResult,
                            names[j].source,
                        );
                        let id = match allocated {
                            Ok(id) => id,
                            Err(d) => {
                                proof {
                                    assert(lw.current_types() == lw0.current_types());
                                    assert(lw.current_constants() == lw0.current_constants());
                                    assert(lw.current_closures() == lw0.current_closures());
                                    if lw.locals@.len() > u32::MAX {
                                        assert(named_count(slots) > 0);
                                    } else {
                                        if n != "_"@ && lw.depth() > 0 && has_key(lw.current_locals(), n) && !has_key(lw0.current_locals(), n) {
                                            assert(named_before(slots, k, n));
                                            let w = choose|w: int| 0 <= w < k && slots[w] == Some(n);
                                            assert(slots[w] == Some(n));
                                        }
                                        assert(!slot_declarable(lw0, slots, k));
                                    }
                                    assert(!results_declarable(lw0, fields.fields@, types@.len() as int));
                                }
                                return Err(d);
                            },
                        };
                        proof {
                            assert(self.locals@.take(start.len() as int) =~= before.take(start.len() as int));
                            assert forall|i: int| 0 <= i < result@.len() && (#[trigger] result@[i]) is Some implies self.locals@[slot_local(
                                result@[i],
                            )] == before[slot_local(result@[i])] by {}
                        }
                        type_index += 1;
                        result.push(Some(id));
                        proof {
                            assert(lw.current_types() == lw0.current_types());
                            assert(lw.current_constants() == lw0.current_constants());
                            assert(lw.current_closures() == lw0.current_closures());
                            assert forall|w: int| 0 <= w < k && n != "_"@ implies slots[w] != Some(n) by {
                                if slots[w] == Some(n) {
                                    assert(named_before(slots, k, n));
                                }
                            }
                            assert(slot_declarable(lw0, slots, k));
                            assert forall|m: Seq<char>| #[trigger] has_key(self.current_locals(), m) implies has_key(
                                lw0.current_locals(),
                                m,
                            ) || named_before(slots, k + 1, m) by {
                                if n != "_"@ && m == n {
                                    assert(slots[k] == Some(m));
                                } else if has_key(lw.current_locals(), m) {
                                    if named_before(slots, k, m) {
                                        let w = choose|w: int| 0 <= w < k && slots[w] == Some(m);
                                        assert(slots[w] == Some(m));
                                    }
                                } else {
                                    assert(entry(self.current_locals(), m) == entry(lw.current_locals(), m));
                                }
                            }
                            assert forall|m: Seq<char>| has_key(lw0.current_locals(), m) implies #[trigger] has_key(
                                self.current_locals(),
                                m,
                            ) by {
                                if n != "_"@ {
                                    if m != n {
                                        assert(entry(self.current_locals(), m) == entry(lw.current_locals(), m));
                                    }
                                }
                            }
                            assert forall|m: Seq<char>| #[trigger] named_before(slots, k + 1, m) implies has_key(
                                self.current_locals(),
                                m,
                            ) by {
                                let w = choose|w: int| 0 <= w < k + 1 && slots[w] == Some(m);
                                if w < k {
                                    assert(named_before(slots, k, m));
                                    if m != n {
                                        assert(entry(self.current_locals(), m) == entry(lw.current_locals(), m));
                                    }
                                }
                            }
                        }
                        j += 1;
                    }
                },
                None => {
                    proof {
                        lemma_field_slot_unnamed(fields.fields@, f as int);
                    }
                    if type_index >= types.len() {
                        return Err(Diagnostic::backend("result field mismatch"));
                    }
                    let ghost k = type_index as int;
                    proof {
                        lemma_named_count_step(slots, k);
                    }
                    type_index += 1;
                    result.push(None);
                    proof {
                        assert(slot_declarable(lw0, slots, k));
                        assert forall|m: Seq<char>| #[trigger] named_before(slots, k + 1, m) implies named_before(slots, k, m) by {
                            let w = choose|w: int| 0 <= w < k + 1 && slots[w] == Some(m);
                            assert(w != k);
                        }
                        assert forall|m: Seq<char>| #[trigger] named_before(slots, k, m) implies named_before(slots, k + 1, m) by {
                            let w = choose|w: int| 0 <= w < k && slots[w] == Some(m);
                            assert(slots[w] == Some(m));
                        }
                    }
                },
            }
            f += 1;
        }
        proof {
            assert(fields.fields@.take(f as int) =~= fields.fields@);
            assert(slots.take(type_index as int) =~= slots);
        }
        Ok(result)
    }

    /// The defined type that a reference to a recursive named type stands
    /// for, looked up among the type aliases; any other type is itself.
    pub fn expand_named_ref(&self, ty: &Ty) -> (r: Result<Ty, Diagnostic>)
        ensures
            !(ty is NamedRef) ==> r == Ok::<Ty, Diagnostic>(*ty),
            ty matches Ty::NamedRef { definition } ==> match r {
                Ok(t) => t matches Ty::Named { definition: d, .. } && d == definition && exists|i: int|
                    0 <= i < self.type_aliases@.len() && (#[trigger] self.type_aliases@[i]).1 == t,
                Err(d) => d.kind == DiagnosticKind::Backend && !(exists|i: int|
                    0 <= i < self.type_aliases@.len() && names_definition(
                        #[trigger] self.type_aliases@[i].1,
                        *definition,
                    )),
            },
    {
        let identity = match ty {
            Ty::NamedRef { definition } => *definition,
            _ => return Ok(ty.clone()),
        };
        let mut i: usize = 0;
        while i < self.type_aliases.len()
            invariant
                i <= self.type_aliases@.len(),
                ty matches Ty::NamedRef { definition } && definition == identity,
                forall|j: int| 0 <= j < i ==> !names_definition(#[trigger] self.type_aliases@[j].1, identity),
            decreases self.type_aliases@.len() - i,
        {
            let candidate = &self.type_aliases[i].1;
            if let Ty::Named { definition, .. } = candidate {
                if *definition == identity {
                    return Ok(candidate.clone());
                }
            }
            i += 1;
        }
        Err(Diagnostic::backend("recursive named type is absent from the package type index"))
    }
}

/// A type declared in a block lasts until the block closes: when a block
/// is opened, a type is declared in it and the block is closed again, every
/// type alias is what it was before the block opened.
pub proof fn lemma_block_type_alias_restored(
    before: FunctionLowerer,
    opened: FunctionLowerer,
    declared: FunctionLowerer,
    closed: FunctionLowerer,
    name: Seq<char>,
    ty: Ty,
)
    requires
        before.wf(),
        opened.current_types().len() == 0,
        opened.type_aliases@ == before.type_aliases@,
        forall|n: Seq<char>|
            #[trigger] entry(declared.type_aliases@, n) == if n == name {
                Some(ty)
            } else {
                entry(opened.type_aliases@, n)
            },
        forall|n: Seq<char>|
            #[trigger] entry(declared.current_types(), n) == if n == name {
                Some(entry(opened.type_aliases@, name))
            } else {
                entry(opened.current_types(), n)
            },
        forall|n: Seq<char>|
            #[trigger] entry(closed.type_aliases@, n) == match entry(declared.current_types(), n) {
                Some(previous) => previous,
                None => entry(declared.type_aliases@, n),
            },
    ensures
        forall|n: Seq<char>| #[trigger] entry(closed.type_aliases@, n) == entry(before.type_aliases@, n),
{
    assert forall|n: Seq<char>| #[trigger] entry(closed.type_aliases@, n) == entry(before.type_aliases@, n) by {
        assert(entry(declared.current_types(), n) == if n == name {
            Some(entry(opened.type_aliases@, name))
        } else {
            entry(opened.current_types(), n)
        });
        if n != name {
            assert(!has_key(opened.current_types(), n));
            assert(entry(declared.type_aliases@, n) == entry(opened.type_aliases@, n));
        }
    }
}

/// A step inside a block that keeps the depth and what closing the block
/// would make of every type alias.
pub open spec fn keeps_block_aliases(a: FunctionLowerer, b: FunctionLowerer) -> bool {
    &&& b.depth() == a.depth()
    &&& forall|n: Seq<char>| #[trigger] b.undone_alias(n) == a.undone_alias(n)
}

/// A block undoes the type aliases declared in it: when a block is opened
/// on some aliases, any number of binding steps follow (declaring types,
/// locals, local constants and closures each keep what closing the block
/// restores), and the block is closed, every name has the alias it had
/// before the block opened, at the depth the block was opened from.
pub proof fn lemma_block_restores_type_aliases(
    before: FunctionLowerer,
    steps: Seq<FunctionLowerer>,
    closed: FunctionLowerer,
)
    requires
        before.wf(),
        closed.wf(),
        steps.len() > 0,
        steps[0].depth() == before.depth() + 1,
        forall|n: Seq<char>| #[trigger] steps[0].undone_alias(n) == entry(before.type_aliases@, n),
        forall|i: int| 0 <= i < steps.len() - 1 ==> keeps_block_aliases(#[trigger] steps[i], steps[i + 1]),
        closed.depth() == steps.last().depth() - 1,
        forall|n: Seq<char>| #[trigger] entry(closed.type_aliases@, n) == steps.last().undone_alias(n),
    ensures
        forall|n: Seq<char>| #[trigger] entry(closed.type_aliases@, n) == entry(before.type_aliases@, n),
        closed.depth() == before.depth(),
        closed.scopes@.len() == before.scopes@.len(),
        closed.closure_scopes@.len() == before.closure_scopes@.len(),
        closed.local_constant_scopes@.len() == before.local_constant_scopes@.len(),
        closed.type_scope_changes@.len() == before.type_scope_changes@.len(),
{
    lemma_steps_keep_aliases(steps, steps.len() - 1);
}

proof fn lemma_steps_keep_aliases(steps: Seq<FunctionLowerer>, k: int)
    requires
        0 <= k < steps.len(),
        forall|i: int| 0 <= i < steps.len() - 1 ==> keeps_block_aliases(#[trigger] steps[i], steps[i + 1]),
    ensures
        keeps_block_aliases(steps[0], steps[k]),
    decreases k,
{
    if k > 0 {
        lemma_steps_keep_aliases(steps, k - 1);
        assert(keeps_block_aliases(steps[k - 1], steps[k]));
    }
}

/// Opening a block and closing it again restores name resolution: every
/// local, local constant and closure that a name denoted before the block
/// opened, it denotes again after the block closes.
pub proof fn lemma_block_scopes_restored(before: FunctionLowerer, opened: FunctionLowerer, closed: FunctionLowerer)
    requires
        before.wf(),
        opened.scopes@.drop_last() == before.scopes@,
        opened.local_constant_scopes@.drop_last() == before.local_constant_scopes@,
        opened.closure_scopes@.drop_last() == before.closure_scopes@,
        opened.depth() == before.depth() + 1,
        closed.scopes@ == opened.scopes@.drop_last(),
        closed.local_constant_scopes@ == opened.local_constant_scopes@.drop_last(),
        closed.closure_scopes@ == opened.closure_scopes@.drop_last(),
    ensures
        forall|n: Seq<char>| #[trigger] closed.local_below(closed.depth(), n) == before.local_below(before.depth(), n),
        forall|n: Seq<char>|
            #[trigger] closed.constant_below(closed.depth(), n) == before.constant_below(before.depth(), n),
        forall|n: Seq<char>|
            #[trigger] closed.closure_below(closed.depth(), n) == before.closure_below(before.depth(), n),
{
    assert(closed.scopes@ =~= before.scopes@);
    assert(closed.local_constant_scopes@ =~= before.local_constant_scopes@);
    assert(closed.closure_scopes@ =~= before.closure_scopes@);
    assert forall|n: Seq<char>| #[trigger] closed.local_below(closed.depth(), n) == before.local_below(before.depth(), n) by {
        lemma_same_levels_resolve(closed, before, closed.depth(), n);
    }
    assert forall|n: Seq<char>|
        #[trigger] closed.constant_below(closed.depth(), n) == before.constant_below(before.depth(), n) by {
        lemma_same_levels_resolve(closed, before, closed.depth(), n);
    }
    assert forall|n: Seq<char>|
        #[trigger] closed.closure_below(closed.depth(), n) == before.closure_below(before.depth(), n) by {
        lemma_same_levels_resolve(closed, before, closed.depth(), n);
    }
}

/// Lowerers with the same scope levels resolve every name alike.
proof fn lemma_same_levels_resolve(a: FunctionLowerer, b: FunctionLowerer, d: int, n: Seq<char>)
    requires
        a.scopes@ == b.scopes@,
        a.local_constant_scopes@ == b.local_constant_scopes@,
        a.closure_scopes@ == b.closure_scopes@,
    ensures
        a.local_below(d, n) == b.local_below(d, n),
        a.constant_below(d, n) == b.constant_below(d, n),
        a.closure_below(d, n) == b.closure_below(d, n),
    decreases d,
{
    if d > 0 {
        lemma_same_levels_resolve(a, b, d - 1, n);
    }
}

/// Two lookups agree: both find nothing, or both find the same type and
/// the same constant.
pub open spec fn lookups_agree(a: Option<(Ty, ConstValue)>, b: Option<(Ty, ConstValue)>) -> bool {
    match (a, b) {
        (Some((t, c)), Some((u, d))) => t == u && c.same_constant(d),
        (None, None) => true,
        _ => false,
    }
}

/// A local constant that a name denotes was declared at some level.
proof fn lemma_constant_below_declared(f: FunctionLowerer, d: int, name: Seq<char>)
    requires
        f.constant_below(d, name) is Some,
    ensures
        exists|i: int| 0 <= i < d && i < f.depth() && #[trigger] has_key(f.local_constant_scopes@[i]@, name),
    decreases d,
{
    if has_key(f.local_constant_scopes@[d - 1]@, name) {
        assert(has_key(f.local_constant_scopes@[d - 1]@, name));
    } else {
        lemma_constant_below_declared(f, d - 1, name);
    }
}

/// The value of a local constant that a name denotes is well formed.
proof fn lemma_constant_below_value_wf(f: FunctionLowerer, d: int, name: Seq<char>)
    requires
        f.wf(),
        f.constants_wf(),
        f.constant_below(d, name) is Some,
    ensures
        f.constant_below(d, name)->0.value.wf(),
    decreases d,
{
    let level = f.local_constant_scopes@[d - 1]@;
    if has_key(level, name) {
        let i = choose|i: int| 0 <= i < level.len() && (#[trigger] level[i]).0@ == name;
        lemma_entry_at(level, i);
        assert(f.local_constant_scopes@[d - 1]@[i].1.value.wf());
    } else {
        lemma_constant_below_value_wf(f, d - 1, name);
    }
}

/// In a table whose names are distinct, looking up an entry's name finds
/// that entry.
proof fn lemma_table_lookup_at(table: ConstantTable, k: int)
    requires
        table.wf(),
        0 <= k < table.entries@.len(),
    ensures
        table.spec_lookup(table.entries@[k].name@) == Some((table.entries@[k].ty, table.entries@[k].value)),
{
    let n = table.entries@[k].name@;
    let i = choose|i: int| 0 <= i < table.entries@.len() && (#[trigger] table.entries@[i]).name@ == n;
    if i != k {
        if i < k {
            assert(table.entries@[i].name@ != table.entries@[k].name@);
        } else {
            assert(table.entries@[k].name@ != table.entries@[i].name@);
        }
    }
}

/// In a list whose names are distinct, an entry's name finds that entry.
proof fn lemma_entry_at<T>(s: Seq<(String, T)>, m: int)
    requires
        unique_keys(s),
        0 <= m < s.len(),
    ensures
        entry(s, s[m].0@) == Some(s[m].1),
{
    let n = s[m].0@;
    let i = choose|i: int| 0 <= i < s.len() && (#[trigger] s[i]).0@ == n;
    if i != m {
        if i < m {
            assert(s[i].0@ != s[m].0@);
        } else {
            assert(s[m].0@ != s[i].0@);
        }
    }
}

/// Whether a table entry of that name exists.
fn table_has(entries: &Vec<ConstantSymbol>, name: &String) -> (r: bool)
    ensures
        r == exists|i: int| 0 <= i < entries@.len() && (#[trigger] entries@[i]).name@ == name@,
{
    let mut i: usize = 0;
    while i < entries.len()
        invariant
            i <= entries@.len(),
            forall|k: int| 0 <= k < i ==> (#[trigger] entries@[k]).name@ != name@,
        decreases entries@.len() - i,
    {
        if entries[i].name == *name {
            return true;
        }
        i += 1;
    }
    false
}

impl FunctionLowerer {
    /// The constant that a name denotes in the function body: the local
    /// constant of the nearest enclosing block that declares one, unless a
    /// nearer local variable hides it, and otherwise the package constant.
    pub open spec fn visible_constant(&self, name: Seq<char>) -> Option<(Ty, ConstValue)> {
        match self.constant_below(self.depth(), name) {
            Some(c) => Some((c.ty, c.value)),
            None => self.constants.spec_lookup(name),
        }
    }

    /// Every constant that the function can name is well formed.
    pub open spec fn constants_wf(&self) -> bool {
        &&& self.constants.wf()
        &&& forall|i: int, j: int|
            0 <= i < self.local_constant_scopes@.len() && 0 <= j < self.local_constant_scopes@[i]@.len() ==> (#[trigger] self.local_constant_scopes@[i]@[j]).1.value.wf()
    }

    /// `table` gives each name the constant that the function body sees.
    pub open spec fn sees_constants(&self, table: ConstantTable) -> bool {
        forall|name: Seq<char>| #[trigger] lookups_agree(table.spec_lookup(name), self.visible_constant(name))
    }

    /// `types` gives each name the type alias in scope.
    pub open spec fn sees_types(&self, types: TypeTable) -> bool {
        forall|name: Seq<char>| #[trigger] types.spec_lookup(name) == entry(self.type_aliases@, name)
    }

    /// The constants that the function body sees, as one table.
    fn visible_constants(&self) -> (r: ConstantTable)
        requires
            self.wf(),
            self.constants_wf(),
        ensures
            r.wf(),
            self.sees_constants(r),
    {
        let mut merged: Vec<ConstantSymbol> = Vec::new();
        let mut d: usize = self.local_constant_scopes.len();
        while d > 0
            invariant
                self.wf(),
                self.constants_wf(),
                d <= self.depth(),
                (ConstantTable { entries: merged }).wf(),
                forall|k: int|
                    0 <= k < merged@.len() ==> (self.constant_below(self.depth(), (#[trigger] merged@[k]).name@) matches Some(
                        c,
                    ) && merged@[k].ty == c.ty && merged@[k].value.same_constant(c.value)),
                forall|i: int, n: Seq<char>|
                    d <= i < self.depth() && #[trigger] has_key(self.local_constant_scopes@[i]@, n)
                        && self.constant_below(self.depth(), n) is Some ==> exists|k: int|
                        0 <= k < merged@.len() && (#[trigger] merged@[k]).name@ == n,
            decreases d,
        {
            let i = d - 1;
            let level = &self.local_constant_scopes[i];
            let mut k: usize = 0;
            while k < level.len()
                invariant
                    self.wf(),
                    self.constants_wf(),
                    i < self.depth(),
                    level@ == self.local_constant_scopes@[i as int]@,
                    k <= level@.len(),
                    (ConstantTable { entries: merged }).wf(),
                    forall|m: int|
                        0 <= m < merged@.len() ==> (self.constant_below(self.depth(), (#[trigger] merged@[m]).name@) matches Some(
                            c,
                        ) && merged@[m].ty == c.ty && merged@[m].value.same_constant(c.value)),
                    forall|a: int, n: Seq<char>|
                        i + 1 <= a < self.depth() && #[trigger] has_key(self.local_constant_scopes@[a]@, n)
                            && self.constant_below(self.depth(), n) is Some ==> exists|m: int|
                            0 <= m < merged@.len() && (#[trigger] merged@[m]).name@ == n,
                    forall|j: int|
                        0 <= j < k && self.constant_below(self.depth(), (#[trigger] level@[j]).0@) is Some ==> exists|m: int|
                            0 <= m < merged@.len() && (#[trigger] merged@[m]).name@ == level@[j].0@,
                decreases level@.len() - k,
            {
                let name = &level[k].0;
                let ghost before = merged@;
                match self.lookup_local_constant(name.as_str()) {
                    Some(c) => {
                        if !table_has(&merged, name) {
                            proof {
                                lemma_constant_below_value_wf(*self, self.depth(), name@);
                            }
                            merged.push(ConstantSymbol { name: name.clone(), ty: c.ty.clone(), value: c.value.duplicate() });
                            proof {
                                assert forall|a: int, b: int| 0 <= a < b < merged@.len() implies (#[trigger] merged@[a]).name@
                                    != (#[trigger] merged@[b]).name@ by {
                                    if b == merged@.len() - 1 {
                                        assert(merged@[a] == before[a]);
                                    } else {
                                        assert(merged@[a] == before[a] && merged@[b] == before[b]);
                                    }
                                }
                                assert forall|m: int| 0 <= m < merged@.len() implies (#[trigger] merged@[m]).value.wf() by {
                                    if m < before.len() {
                                        assert(merged@[m] == before[m]);
                                    }
                                }
                                assert(merged@[merged@.len() - 1].name@ == name@);
                            }
                        }
                        proof {
                            assert(exists|m: int| 0 <= m < merged@.len() && (#[trigger] merged@[m]).name@ == name@);
                        }
                    },
                    None => {},
                }
                proof {
                    assert(merged@.len() >= before.len());
                    assert(forall|m: int| 0 <= m < before.len() ==> merged@[m] == before[m]);
                    assert forall|a: int, n: Seq<char>|
                        i + 1 <= a < self.depth() && #[trigger] has_key(self.local_constant_scopes@[a]@, n)
                            && self.constant_below(self.depth(), n) is Some implies exists|m: int|
                            0 <= m < merged@.len() && (#[trigger] merged@[m]).name@ == n by {
                        let m = choose|m: int| 0 <= m < before.len() && (#[trigger] before[m]).name@ == n;
                        assert(merged@[m] == before[m]);
                    }
                    assert forall|j: int|
                        0 <= j < k + 1 && self.constant_below(self.depth(), (#[trigger] level@[j]).0@) is Some implies exists|m: int|
                            0 <= m < merged@.len() && (#[trigger] merged@[m]).name@ == level@[j].0@ by {
                        if j < k {
                            let m = choose|m: int| 0 <= m < before.len() && (#[trigger] before[m]).name@ == level@[j].0@;
                            assert(merged@[m] == before[m]);
                        }
                    }
                }
                k += 1;
            }
            d = i;
        }
        proof {
            assert forall|n: Seq<char>| #[trigger] self.constant_below(self.depth(), n) is Some implies exists|m: int|
                0 <= m < merged@.len() && (#[trigger] merged@[m]).name@ == n by {
                lemma_constant_below_declared(*self, self.depth(), n);
                let i = choose|i: int| 0 <= i < self.depth() && #[trigger] has_key(self.local_constant_scopes@[i]@, n);
                assert(has_key(self.local_constant_scopes@[i]@, n));
            }
        }
        proof {
            assert forall|m: int| 0 <= m < merged@.len() implies lookups_agree(
                Some(((#[trigger] merged@[m]).ty, merged@[m].value)),
                self.visible_constant(merged@[m].name@),
            ) by {
                assert(self.constant_below(self.depth(), merged@[m].name@) is Some);
            }
        }
        let package = &self.constants.entries;
        let mut k: usize = 0;
        while k < package.len()
            invariant
                self.wf(),
                self.constants_wf(),
                package@ == self.constants.entries@,
                k <= package@.len(),
                (ConstantTable { entries: merged }).wf(),
                forall|m: int|
                    0 <= m < merged@.len() ==> lookups_agree(
                        Some(((#[trigger] merged@[m]).ty, merged@[m].value)),
                        self.visible_constant(merged@[m].name@),
                    ),
                forall|n: Seq<char>| #[trigger] self.constant_below(self.depth(), n) is Some ==> exists|m: int|
                    0 <= m < merged@.len() && (#[trigger] merged@[m]).name@ == n,
                forall|j: int|
                    0 <= j < k && self.constant_below(self.depth(), (#[trigger] package@[j]).name@) is None ==> exists|m: int|
                        0 <= m < merged@.len() && (#[trigger] merged@[m]).name@ == package@[j].name@,
                forall|m: int|
                    0 <= m < merged@.len() ==> (self.constant_below(self.depth(), (#[trigger] merged@[m]).name@) is Some || exists|j: int|
                        0 <= j < k && (#[trigger] package@[j]).name@ == merged@[m].name@),
            decreases package@.len() - k,
        {
            let entry_k = &package[k];
            if self.lookup_local_constant(entry_k.name.as_str()).is_none() {
                proof {
                    assert(package@[k as int].value.wf());
                    assert(!exists|m: int| 0 <= m < merged@.len() && (#[trigger] merged@[m]).name@ == entry_k.name@) by {
                        if exists|m: int| 0 <= m < merged@.len() && (#[trigger] merged@[m]).name@ == entry_k.name@ {
                            let m = choose|m: int| 0 <= m < merged@.len() && (#[trigger] merged@[m]).name@ == entry_k.name@;
                            if self.constant_below(self.depth(), merged@[m].name@) is None {
                                let j = choose|j: int| 0 <= j < k && (#[trigger] package@[j]).name@ == merged@[m].name@;
                                assert(package@[j].name@ != package@[k as int].name@);
                            }
                        }
                    }
                    lemma_table_lookup_at(self.constants, k as int);
                }
                let ghost before = merged@;
                merged.push(ConstantSymbol { name: entry_k.name.clone(), ty: entry_k.ty.clone(), value: entry_k.value.duplicate() });
                proof {
                    assert forall|a: int, b: int| 0 <= a < b < merged@.len() implies (#[trigger] merged@[a]).name@
                        != (#[trigger] merged@[b]).name@ by {
                        if b == merged@.len() - 1 {
                            assert(merged@[a] == before[a]);
                        } else {
                            assert(merged@[a] == before[a] && merged@[b] == before[b]);
                        }
                    }
                    assert forall|m: int| 0 <= m < merged@.len() implies (#[trigger] merged@[m]).value.wf() by {
                        if m < before.len() {
                            assert(merged@[m] == before[m]);
                        }
                    }
                    assert forall|n: Seq<char>| #[trigger] self.constant_below(self.depth(), n) is Some implies exists|m: int|
                        0 <= m < merged@.len() && (#[trigger] merged@[m]).name@ == n by {
                        let m = choose|m: int| 0 <= m < before.len() && (#[trigger] before[m]).name@ == n;
                        assert(merged@[m] == before[m]);
                    }
                    assert forall|j: int| 0 <= j < k + 1 && self.constant_below(self.depth(), (#[trigger] package@[j]).name@) is None implies exists|m: int|
                        0 <= m < merged@.len() && (#[trigger] merged@[m]).name@ == package@[j].name@ by {
                        if j < k {
                            let m = choose|m: int| 0 <= m < before.len() && (#[trigger] before[m]).name@ == package@[j].name@;
                            assert(merged@[m] == before[m]);
                        } else {
                            assert(merged@[merged@.len() - 1].name@ == package@[j].name@);
                        }
                    }
                }
            }
            k += 1;
        }
        let table = ConstantTable { entries: merged };
        proof {
            assert forall|n: Seq<char>| #[trigger] lookups_agree(table.spec_lookup(n), self.visible_constant(n)) by {
                if exists|m: int| 0 <= m < table.entries@.len() && (#[trigger] table.entries@[m]).name@ == n {
                    let m = choose|m: int| 0 <= m < table.entries@.len() && (#[trigger] table.entries@[m]).name@ == n;
                    assert(lookups_agree(Some((table.entries@[m].ty, table.entries@[m].value)), self.visible_constant(n)));
                } else {
                    if self.constant_below(self.depth(), n) is None {
                        if self.constants.spec_lookup(n) is Some {
                            let j = choose|j: int| 0 <= j < self.constants.entries@.len() && (#[trigger] self.constants.entries@[j]).name@ == n;
                            assert(package@[j].name@ == n);
                        }
                    }
                }
            }
        }
        table
    }

    /// The type aliases in scope, as a table.
    fn visible_types(&self) -> (r: TypeTable)
        requires
            self.wf(),
        ensures
            r.wf(),
            self.sees_types(r),
    {
        let mut entries: Vec<TypeAlias> = Vec::new();
        let mut k: usize = 0;
        while k < self.type_aliases.len()
            invariant
                self.wf(),
                k <= self.type_aliases@.len(),
                entries@.len() == k,
                forall|m: int| 0 <= m < k ==> (#[trigger] entries@[m]).name@ == self.type_aliases@[m].0@ && entries@[m].ty
                    == self.type_aliases@[m].1,
            decreases self.type_aliases@.len() - k,
        {
            let alias = &self.type_aliases[k];
            entries.push(TypeAlias { name: alias.0.clone(), ty: alias.1.clone() });
            k += 1;
        }
        let table = TypeTable { entries };
        proof {
            assert forall|a: int, b: int| 0 <= a < b < table.entries@.len() implies (#[trigger] table.entries@[a]).name@
                != (#[trigger] table.entries@[b]).name@ by {
                assert(self.type_aliases@[a].0@ != self.type_aliases@[b].0@);
            }
            assert forall|n: Seq<char>| #[trigger] table.spec_lookup(n) == entry(self.type_aliases@, n) by {
                if exists|m: int| 0 <= m < table.entries@.len() && (#[trigger] table.entries@[m]).name@ == n {
                    let m = choose|m: int| 0 <= m < table.entries@.len() && (#[trigger] table.entries@[m]).name@ == n;
                    assert(self.type_aliases@[m].0@ == n);
                    lemma_entry_at(self.type_aliases@, m);
                } else {
                    if has_key(self.type_aliases@, n) {
                        let m = choose|m: int| 0 <= m < self.type_aliases@.len() && (#[trigger] self.type_aliases@[m]).0@ == n;
                        assert(table.entries@[m].name@ == n);
                    }
                }
            }
        }
        table
    }

    /// Evaluates a constant expression in the function body: names denote
    /// the constants that the body sees, and conversions the type aliases
    /// in scope.
    pub fn eval_constant_expression(&self, expression: &ExprSyntax, source: SourceRef, iota: u64) -> (r: Result<
        (Ty, ConstValue),
        Diagnostic,
    >)
        requires
            self.wf(),
            self.constants_wf(),
        ensures
            exists|table: ConstantTable, types: TypeTable|
                #[trigger] evaluates(*expression, table, types, iota, evaluation_of(r)) && table.wf() && types.wf()
                    && self.sees_constants(table) && self.sees_types(types),
            r matches Ok((_, c)) ==> c.wf(),
    {
        let table = self.visible_constants();
        let types = self.visible_types();
        let r = eval_constant_with_lookups(expression, &table, &types, source, iota);
        proof {
            assert(evaluates(*expression, table, types, iota, evaluation_of(r)));
        }
        r
    }
}

} // verus!
