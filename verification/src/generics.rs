//! Helpers of generic type inference and instantiation.

use vstd::prelude::*;

use crate::hir::{Diagnostic, DiagnosticKind, SourceRef};
use crate::syntax::{ExprSyntax, ExprSyntaxKind, FieldListSyntax, FieldSyntax, FunctionHeaderSyntax, Token};
use crate::types::{Ty, UntypedTy};

verus! {

/// The type bound to a name in a substitution; no name is bound twice.
pub open spec fn bound_type(s: Seq<(String, Ty)>, name: Seq<char>) -> Option<Ty> {
    if exists|i: int| 0 <= i < s.len() && (#[trigger] s[i]).0@ == name {
        let i = choose|i: int| 0 <= i < s.len() && (#[trigger] s[i]).0@ == name;
        Some(s[i].1)
    } else {
        None
    }
}

/// The untyped kind recorded for a name; no name is recorded twice.
pub open spec fn default_kind(s: Seq<(String, UntypedTy)>, name: Seq<char>) -> Option<UntypedTy> {
    if exists|i: int| 0 <= i < s.len() && (#[trigger] s[i]).0@ == name {
        let i = choose|i: int| 0 <= i < s.len() && (#[trigger] s[i]).0@ == name;
        Some(s[i].1)
    } else {
        None
    }
}

pub open spec fn distinct_bindings<T>(s: Seq<(String, T)>) -> bool {
    forall|i: int, j: int| 0 <= i < j < s.len() ==> (#[trigger] s[i]).0@ != (#[trigger] s[j]).0@
}

/// The index of the binding of `name`, if any.
fn find_binding<T>(s: &Vec<(String, T)>, name: &String) -> (r: Option<usize>)
    requires
        distinct_bindings(s@),
    ensures
        r is None <==> !(exists|i: int| 0 <= i < s@.len() && (#[trigger] s@[i]).0@ == name@),
        r matches Some(k) ==> k < s@.len() && s@[k as int].0@ == name@ && (choose|i: int|
            0 <= i < s@.len() && (#[trigger] s@[i]).0@ == name@) == k,
{
    let mut k: usize = 0;
    while k < s.len()
        invariant
            distinct_bindings(s@),
            k <= s@.len(),
            forall|j: int| 0 <= j < k ==> (#[trigger] s@[j]).0@ != name@,
        decreases s@.len() - k,
    {
        if s[k].0 == *name {
            proof {
                let c = choose|i: int| 0 <= i < s@.len() && (#[trigger] s@[i]).0@ == name@;
                if c != k {
                    if c < k {
                        assert(s@[c].0@ != s@[k as int].0@);
                    } else {
                        assert(s@[k as int].0@ != s@[c].0@);
                    }
                }
            }
            return Some(k);
        }
        k += 1;
    }
    None
}

/// Binds each type parameter that inference left open, and for which an
/// untyped constant was seen, to that constant's default type.
pub fn apply_untyped_constant_defaults(substitutions: &mut Vec<(String, Ty)>, defaults: Vec<(String, UntypedTy)>)
    requires
        distinct_bindings(old(substitutions)@),
        distinct_bindings(defaults@),
    ensures
        distinct_bindings(final(substitutions)@),
        forall|name: Seq<char>|
            #[trigger] bound_type(final(substitutions)@, name) == match bound_type(old(substitutions)@, name) {
                Some(t) => Some(t),
                None => match default_kind(defaults@, name) {
                    Some(k) => Some(Ty::Untyped(k).spec_default_typed()),
                    None => None,
                },
            },
{
    let mut i: usize = 0;
    while i < defaults.len()
        invariant
            i <= defaults@.len(),
            distinct_bindings(defaults@),
            distinct_bindings(substitutions@),
            forall|name: Seq<char>|
                #[trigger] bound_type(substitutions@, name) == match bound_type(old(substitutions)@, name) {
                    Some(t) => Some(t),
                    None => match default_kind(defaults@.take(i as int), name) {
                        Some(k) => Some(Ty::Untyped(k).spec_default_typed()),
                        None => None,
                    },
                },
        decreases defaults@.len() - i,
    {
        let (name, kind) = (&defaults[i].0, defaults[i].1);
        let ghost before = substitutions@;
        let found = find_binding(substitutions, name);
        if found.is_none() {
            let ty = Ty::Untyped(kind).default_typed();
            substitutions.push((name.clone(), ty));
            proof {
                assert forall|a: int, b: int| 0 <= a < b < substitutions@.len() implies (#[trigger] substitutions@[a]).0@
                    != (#[trigger] substitutions@[b]).0@ by {
                    if b == substitutions@.len() - 1 {
                        assert(before[a] == substitutions@[a]);
                    } else {
                        assert(before[a] == substitutions@[a] && before[b] == substitutions@[b]);
                    }
                }
            }
        }
        proof {
            lemma_default_kind_step(defaults@, i as int);
            if found.is_none() {
                lemma_bound_type_push(before, name@, Ty::Untyped(kind).spec_default_typed());
            }
            assert forall|n: Seq<char>| #[trigger] bound_type(substitutions@, n) == match bound_type(old(substitutions)@, n) {
                Some(t) => Some(t),
                None => match default_kind(defaults@.take(i + 1), n) {
                    Some(k) => Some(Ty::Untyped(k).spec_default_typed()),
                    None => None,
                },
            } by {
                assert(bound_type(before, n) == match bound_type(old(substitutions)@, n) {
                    Some(t) => Some(t),
                    None => match default_kind(defaults@.take(i as int), n) {
                        Some(k) => Some(Ty::Untyped(k).spec_default_typed()),
                        None => None,
                    },
                });
            }
        }
        i += 1;
    }
    proof {
        assert(defaults@.take(i as int) =~= defaults@);
    }
}

proof fn lemma_bound_type_push(s: Seq<(String, Ty)>, name: Seq<char>, ty: Ty)
    requires
        distinct_bindings(s),
        !(exists|i: int| 0 <= i < s.len() && (#[trigger] s[i]).0@ == name),
    ensures
        forall|x: String| #[trigger] x@ == name ==> forall|n: Seq<char>|
            bound_type(s.push((x, ty)), n) == if n == name { Some(ty) } else { bound_type(s, n) },
{
    assert forall|x: String| #[trigger] x@ == name implies forall|n: Seq<char>|
        bound_type(s.push((x, ty)), n) == if n == name { Some(ty) } else { bound_type(s, n) } by {
        let t = s.push((x, ty));
        assert forall|n: Seq<char>| bound_type(t, n) == if n == name { Some(ty) } else { bound_type(s, n) } by {
            if n == name {
                assert(t[s.len() as int].0@ == n);
                let c = choose|c: int| 0 <= c < t.len() && (#[trigger] t[c]).0@ == n;
                if c < s.len() {
                    assert(t[c] == s[c]);
                }
            } else {
                if exists|c: int| 0 <= c < t.len() && (#[trigger] t[c]).0@ == n {
                    let c = choose|c: int| 0 <= c < t.len() && (#[trigger] t[c]).0@ == n;
                    assert(t[c] == s[c]);
                    let e = choose|e: int| 0 <= e < s.len() && (#[trigger] s[e]).0@ == n;
                    if c != e {
                        if c < e {
                            assert(s[c].0@ != s[e].0@);
                        } else {
                            assert(s[e].0@ != s[c].0@);
                        }
                    }
                }
                if exists|c: int| 0 <= c < s.len() && (#[trigger] s[c]).0@ == n {
                    let c = choose|c: int| 0 <= c < s.len() && (#[trigger] s[c]).0@ == n;
                    assert(t[c] == s[c]);
                }
            }
        }
    }
}

proof fn lemma_default_kind_step(d: Seq<(String, UntypedTy)>, i: int)
    requires
        0 <= i < d.len(),
        distinct_bindings(d),
    ensures
        forall|n: Seq<char>|
            #[trigger] default_kind(d.take(i + 1), n) == if n == d[i].0@ {
                Some(d[i].1)
            } else {
                default_kind(d.take(i), n)
            },
        default_kind(d.take(i), d[i].0@) is None,
{
    let t = d.take(i + 1);
    let p = d.take(i);
    assert forall|n: Seq<char>| #[trigger] default_kind(t, n) == if n == d[i].0@ {
        Some(d[i].1)
    } else {
        default_kind(p, n)
    } by {
        if n == d[i].0@ {
            assert(t[i].0@ == n);
            let c = choose|c: int| 0 <= c < t.len() && (#[trigger] t[c]).0@ == n;
            if c != i {
                assert(d[c].0@ != d[i].0@);
            }
        } else {
            if exists|c: int| 0 <= c < t.len() && (#[trigger] t[c]).0@ == n {
                let c = choose|c: int| 0 <= c < t.len() && (#[trigger] t[c]).0@ == n;
                assert(t[c] == p[c]);
            }
            if exists|c: int| 0 <= c < p.len() && (#[trigger] p[c]).0@ == n {
                let c = choose|c: int| 0 <= c < p.len() && (#[trigger] p[c]).0@ == n;
                assert(t[c] == p[c]);
            }
        }
    }
    if exists|c: int| 0 <= c < p.len() && (#[trigger] p[c]).0@ == d[i].0@ {
        let c = choose|c: int| 0 <= c < p.len() && (#[trigger] p[c]).0@ == d[i].0@;
        assert(d[c].0@ != d[i].0@);
    }
}

/// Whether a name is among a list of names.
fn names_contain(names: &Vec<String>, name: &String) -> (r: bool)
    ensures
        r == (exists|i: int| 0 <= i < names@.len() && (#[trigger] names@[i])@ == name@),
{
    let mut i: usize = 0;
    while i < names.len()
        invariant
            i <= names@.len(),
            forall|j: int| 0 <= j < i ==> (#[trigger] names@[j])@ != name@,
        decreases names@.len() - i,
    {
        if names[i] == *name {
            return true;
        }
        i += 1;
    }
    false
}

/// The type parameter that a formal parameter type names directly,
/// parentheses aside.
pub open spec fn spec_bare_type_parameter(formal: ExprSyntax, names: Seq<String>) -> Option<Seq<char>>
    decreases formal,
{
    match formal.kind {
        ExprSyntaxKind::Paren(inner) => spec_bare_type_parameter(*inner, names),
        ExprSyntaxKind::Ident(ident) => if exists|i: int| 0 <= i < names.len() && (#[trigger] names[i])@ == ident.name@ {
            Some(ident.name@)
        } else {
            None
        },
        _ => None,
    }
}

pub fn bare_type_parameter<'syntax>(formal: &'syntax ExprSyntax, parameter_names: &Vec<String>) -> (r: Option<
    &'syntax str,
>)
    ensures
        match r {
            Some(s) => spec_bare_type_parameter(*formal, parameter_names@) == Some(s@),
            None => spec_bare_type_parameter(*formal, parameter_names@) is None,
        },
    decreases formal,
{
    match &formal.kind {
        ExprSyntaxKind::Paren(inner) => bare_type_parameter(inner, parameter_names),
        ExprSyntaxKind::Ident(ident) => if names_contain(parameter_names, &ident.name) {
            Some(ident.name.as_str())
        } else {
            None
        },
        _ => None,
    }
}

/// The rank of a numeric untyped kind in the order integer, rune,
/// floating-point, complex.
pub open spec fn untyped_rank(kind: UntypedTy) -> Option<int> {
    match kind {
        UntypedTy::Int => Some(0),
        UntypedTy::Rune => Some(1),
        UntypedTy::Float => Some(2),
        UntypedTy::Complex => Some(3),
        _ => None,
    }
}

/// The merged kind of two untyped constants inferred for one type
/// parameter: equal kinds merge to themselves, numeric kinds to the later
/// one, other pairs not at all.
pub open spec fn spec_merge_untyped_constant_kinds(previous: UntypedTy, next: UntypedTy) -> Option<UntypedTy> {
    if previous == next {
        Some(previous)
    } else {
        match (untyped_rank(previous), untyped_rank(next)) {
            (Some(a), Some(b)) => Some(if a >= b { previous } else { next }),
            _ => None,
        }
    }
}

fn rank(kind: UntypedTy) -> (r: Option<u8>)
    ensures
        match r {
            Some(v) => untyped_rank(kind) == Some(v as int),
            None => untyped_rank(kind) is None,
        },
{
    match kind {
        UntypedTy::Int => Some(0),
        UntypedTy::Rune => Some(1),
        UntypedTy::Float => Some(2),
        UntypedTy::Complex => Some(3),
        UntypedTy::Bool | UntypedTy::String => None,
    }
}

pub fn merge_untyped_constant_kinds(previous: UntypedTy, next: UntypedTy) -> (r: Option<UntypedTy>)
    ensures
        r == spec_merge_untyped_constant_kinds(previous, next),
{
    if previous == next {
        return Some(previous);
    }
    let previous_rank = match rank(previous) {
        Some(v) => v,
        None => return None,
    };
    let next_rank = match rank(next) {
        Some(v) => v,
        None => return None,
    };
    Some(if previous_rank >= next_rank { previous } else { next })
}

/// Of two types with the same underlying type, the defined one.
pub open spec fn spec_prefer_defined_type(previous: Ty, actual: Ty) -> Option<Ty> {
    if previous.spec_underlying() != actual.spec_underlying() {
        None
    } else if previous is Named || previous is LocalNamed {
        Some(previous)
    } else if actual is Named || actual is LocalNamed {
        Some(actual)
    } else {
        None
    }
}

pub fn prefer_defined_type(previous: &Ty, actual: &Ty) -> (r: Option<Ty>)
    ensures
        r == spec_prefer_defined_type(*previous, *actual),
{
    if previous.underlying() != actual.underlying() {
        return None;
    }
    match (previous, actual) {
        (Ty::Named { .. }, _) | (Ty::LocalNamed { .. }, _) => Some(previous.clone()),
        (_, Ty::Named { .. }) | (_, Ty::LocalNamed { .. }) => Some(actual.clone()),
        _ => None,
    }
}

/// The diagnostic for an argument whose type does not fit the generic
/// parameter pattern.
pub fn type_inference_mismatch(formal: &ExprSyntax, actual: &Ty, source: SourceRef) -> (r: Diagnostic)
    ensures
        r.kind == DiagnosticKind::Semantic,
        r.source == Some(source),
        r.message@ == "argument type does not match the generic parameter pattern"@,
{
    Diagnostic::semantic("argument type does not match the generic parameter pattern", source)
}

/// The type of a method's single receiver.
pub fn single_receiver_type(header: &FunctionHeaderSyntax, source: SourceRef) -> (r: Result<&ExprSyntax, Diagnostic>)
    ensures
        header.receiver is None ==> (r matches Err(d) && d.kind == DiagnosticKind::Backend),
        header.receiver matches Some(fields) ==> if fields.fields@.len() != 1 {
            r matches Err(d) && d.kind == DiagnosticKind::Semantic
        } else {
            match fields.fields@[0].ty {
                Some(t) => r == Ok::<&ExprSyntax, Diagnostic>(&t),
                None => r matches Err(d) && d.kind == DiagnosticKind::Backend,
            }
        },
{
    let receiver = match &header.receiver {
        Some(receiver) => receiver,
        None => return Err(Diagnostic::backend("generic method omitted its receiver")),
    };
    if receiver.fields.len() != 1 {
        return Err(Diagnostic::semantic("a method must declare exactly one receiver", source));
    }
    match &receiver.fields[0].ty {
        Some(ty) => Ok(ty),
        None => Err(Diagnostic::backend("generic method receiver omitted its type")),
    }
}

/// The defined type that a receiver type names, directly or through a
/// pointer.
pub open spec fn spec_named_receiver_identity(ty: Ty) -> Option<u64> {
    match ty {
        Ty::Named { definition, .. } => Some(definition),
        Ty::Pointer(element) => match *element {
            Ty::Named { definition, .. } => Some(definition),
            _ => None,
        },
        _ => None,
    }
}

pub fn named_receiver_identity(ty: &Ty) -> (r: Option<u64>)
    ensures
        r == spec_named_receiver_identity(*ty),
{
    match ty {
        Ty::Named { definition, .. } => Some(*definition),
        Ty::Pointer(element) => match &**element {
            Ty::Named { definition, .. } => Some(*definition),
            _ => None,
        },
        _ => None,
    }
}

/// The declaration of the defined type that a receiver type names.
pub fn named_receiver_definition(ty: &Ty) -> (r: Option<u64>)
    ensures
        r == spec_named_receiver_identity(*ty),
{
    named_receiver_identity(ty)
}

/// The type parameter names of a declaration, in order; every parameter
/// needs a name and no name but `_` may repeat.
pub open spec fn declared_names(fields: Seq<FieldSyntax>) -> Option<Seq<Seq<char>>>
    decreases fields.len(),
{
    if fields.len() == 0 {
        Some(Seq::empty())
    } else {
        match (declared_names(fields.drop_last()), fields.last().names) {
            (Some(prefix), Some(names)) => Some(prefix + names@.map_values(|n: crate::syntax::IdentSyntax| n.name@)),
            _ => None,
        }
    }
}

/// Some name other than `_` occurs twice.
pub open spec fn has_duplicate(names: Seq<Seq<char>>) -> bool {
    exists|i: int, j: int| 0 <= i < j < names.len() && names[i] == names[j] && names[i] != "_"@
}

pub fn type_parameter_names_in_order(fields: &FieldListSyntax, source: SourceRef) -> (r: Result<Vec<String>, Diagnostic>)
    ensures
        match r {
            Ok(v) => declared_names(fields.fields@) == Some(v@.map_values(|s: String| s@)) && !has_duplicate(
                v@.map_values(|s: String| s@),
            ),
            Err(d) => d.kind == DiagnosticKind::Semantic && (declared_names(fields.fields@) is None
                || has_duplicate(declared_names(fields.fields@)->0)),
        },
{
    let mut ordered: Vec<String> = Vec::new();
    let mut i: usize = 0;
    proof {
        assert(fields.fields@.take(0) =~= Seq::<FieldSyntax>::empty());
        assert(ordered@.map_values(|s: String| s@) =~= Seq::<Seq<char>>::empty());
    }
    while i < fields.fields.len()
        invariant
            i <= fields.fields@.len(),
            declared_names(fields.fields@.take(i as int)) == Some(ordered@.map_values(|s: String| s@)),
            !has_duplicate(ordered@.map_values(|s: String| s@)),
        decreases fields.fields@.len() - i,
    {
        let field = &fields.fields[i];
        proof {
            assert(fields.fields@.take(i + 1).drop_last() =~= fields.fields@.take(i as int));
        }
        let names = match &field.names {
            Some(names) => names,
            None => {
                proof {
                    lemma_declared_names_extend_none(fields.fields@, i as int);
                }
                return Err(Diagnostic::semantic("type parameter declaration requires a name", source));
            },
        };
        let ghost base = ordered@.map_values(|s: String| s@);
        let mut j: usize = 0;
        while j < names.len()
            invariant
                j <= names@.len(),
                ordered@.map_values(|s: String| s@) == base + names@.take(j as int).map_values(
                    |n: crate::syntax::IdentSyntax| n.name@,
                ),
                !has_duplicate(ordered@.map_values(|s: String| s@)),
                declared_names(fields.fields@.take(i as int)) == Some(base),
                i < fields.fields@.len(),
                fields.fields@.take(i + 1).drop_last() == fields.fields@.take(i as int),
                fields.fields@[i as int].names == Some(*names),
            decreases names@.len() - j,
        {
            let name = &names[j].name;
            let ghost seen = ordered@.map_values(|s: String| s@);
            if *name != String::from_str("_") && names_contain(&ordered, name) {
                proof {
                    let k = choose|k: int| 0 <= k < ordered@.len() && (#[trigger] ordered@[k])@ == name@;
                    let full = declared_names(fields.fields@.take(i + 1))->0;
                    lemma_declared_names_extend(fields.fields@, i as int);
                    assert(full == base + names@.map_values(|n: crate::syntax::IdentSyntax| n.name@));
                    assert(seen[k] == ordered@[k]@);
                    if k >= base.len() {
                        assert(seen[k] == names@.take(j as int).map_values(|n: crate::syntax::IdentSyntax| n.name@)[k - base.len()]);
                        assert(full[k] == names@.map_values(|n: crate::syntax::IdentSyntax| n.name@)[k - base.len()]);
                    }
                    assert(full[k] == seen[k]);
                    assert(full[seen.len() as int] == name@);
                    lemma_declared_names_prefix(fields.fields@, i + 1);
                    assert(has_duplicate(full));
                    assert(declared_names(fields.fields@.take(i + 1)) == Some(full));
                    lemma_declared_names_grow(fields.fields@, i + 1, full);
                }
                let mut message = String::from_str("duplicate type parameter ");
                message.append(name.as_str());
                return Err(Diagnostic { kind: DiagnosticKind::Semantic, message, source: Some(source) });
            }
            let ghost prev_ordered = ordered@;
            ordered.push(name.clone());
            proof {
                assert(ordered@.map_values(|s: String| s@) =~= prev_ordered.map_values(|s: String| s@).push(name@));
                let now = ordered@.map_values(|s: String| s@);
                assert(names@.take(j + 1) =~= names@.take(j as int).push(names@[j as int]));
                assert(now =~= base + names@.take(j + 1).map_values(|n: crate::syntax::IdentSyntax| n.name@));
                assert(!has_duplicate(now)) by {
                    assert forall|a: int, b: int| 0 <= a < b < now.len() && now[a] == now[b] implies now[a] == "_"@ by {
                        if b < seen.len() {
                            assert(now[a] == seen[a] && now[b] == seen[b]);
                        } else {
                            assert(now[b] == name@);
                            assert(now[a] == seen[a]);
                            if name@ != "_"@ {
                                assert(ordered@[a]@ == name@);
                            }
                        }
                    }
                }
            }
            j += 1;
        }
        proof {
            lemma_declared_names_extend(fields.fields@, i as int);
            assert(names@.take(j as int) =~= names@);
        }
        i += 1;
    }
    proof {
        assert(fields.fields@.take(i as int) =~= fields.fields@);
    }
    Ok(ordered)
}

proof fn lemma_declared_names_extend(fields: Seq<FieldSyntax>, i: int)
    requires
        0 <= i < fields.len(),
        declared_names(fields.take(i)) is Some,
        fields[i].names is Some,
    ensures
        declared_names(fields.take(i + 1)) == Some(
            declared_names(fields.take(i))->0 + fields[i].names->0@.map_values(|n: crate::syntax::IdentSyntax| n.name@),
        ),
{
    assert(fields.take(i + 1).drop_last() =~= fields.take(i));
}

proof fn lemma_declared_names_extend_none(fields: Seq<FieldSyntax>, i: int)
    requires
        0 <= i < fields.len(),
        fields[i].names is None,
    ensures
        declared_names(fields.take(i + 1)) is None,
        declared_names(fields) is None,
{
    assert(fields.take(i + 1).drop_last() =~= fields.take(i));
    lemma_declared_names_prefix(fields, i + 1);
}

/// Names declared by a prefix begin the names declared by the whole list;
/// a prefix without names leaves the whole list without them.
proof fn lemma_declared_names_prefix(fields: Seq<FieldSyntax>, i: int)
    requires
        0 <= i <= fields.len(),
    ensures
        declared_names(fields.take(i)) is None ==> declared_names(fields) is None,
        declared_names(fields) matches Some(all) ==> (declared_names(fields.take(i)) matches Some(p)
            && p.len() <= all.len() && all.take(p.len() as int) == p),
    decreases fields.len() - i,
{
    if i == fields.len() {
        assert(fields.take(i) =~= fields);
        if let Some(all) = declared_names(fields) {
            assert(all.take(all.len() as int) =~= all);
        }
    } else {
        lemma_declared_names_prefix(fields, i + 1);
        assert(fields.take(i + 1).drop_last() =~= fields.take(i));
        if let Some(all) = declared_names(fields) {
            let q = declared_names(fields.take(i + 1))->0;
            let p = declared_names(fields.take(i))->0;
            assert(q.take(p.len() as int) =~= p);
            assert(all.take(p.len() as int) =~= q.take(p.len() as int));
        }
    }
}

/// A duplicate among the names of a prefix is a duplicate among all names.
proof fn lemma_declared_names_grow(fields: Seq<FieldSyntax>, i: int, p: Seq<Seq<char>>)
    requires
        0 <= i <= fields.len(),
        declared_names(fields.take(i)) == Some(p),
        has_duplicate(p),
    ensures
        declared_names(fields) is None || has_duplicate(declared_names(fields)->0),
{
    lemma_declared_names_prefix(fields, i);
    if let Some(all) = declared_names(fields) {
        let (a, b) = choose|a: int, b: int| 0 <= a < b < p.len() && p[a] == p[b] && p[a] != "_"@;
        assert(all[a] == all.take(p.len() as int)[a]);
        assert(all[b] == all.take(p.len() as int)[b]);
    }
}

/// The field name that an embedded field type declares.
pub open spec fn spec_generic_embedded_field_name(e: ExprSyntax) -> Option<Seq<char>>
    decreases e,
{
    match e.kind {
        ExprSyntaxKind::Ident(ident) => Some(ident.name@),
        ExprSyntaxKind::Paren(inner) => spec_generic_embedded_field_name(*inner),
        ExprSyntaxKind::Unary { token, expression } => if token == Token::MUL {
            spec_generic_embedded_field_name(*expression)
        } else {
            None
        },
        ExprSyntaxKind::Index { base, .. } => spec_generic_embedded_field_name(*base),
        ExprSyntaxKind::IndexList { base, .. } => spec_generic_embedded_field_name(*base),
        ExprSyntaxKind::Selector { selector, .. } => Some(selector.name@),
        _ => None,
    }
}

pub fn generic_embedded_field_name(expression: &ExprSyntax) -> (r: Option<String>)
    ensures
        match r {
            Some(s) => spec_generic_embedded_field_name(*expression) == Some(s@),
            None => spec_generic_embedded_field_name(*expression) is None,
        },
    decreases expression,
{
    match &expression.kind {
        ExprSyntaxKind::Ident(ident) => Some(ident.name.clone()),
        ExprSyntaxKind::Paren(inner) => generic_embedded_field_name(inner),
        ExprSyntaxKind::Unary { token, expression: inner } => if *token == Token::MUL {
            generic_embedded_field_name(inner)
        } else {
            None
        },
        ExprSyntaxKind::Index { base, .. } => generic_embedded_field_name(base),
        ExprSyntaxKind::IndexList { base, .. } => generic_embedded_field_name(base),
        ExprSyntaxKind::Selector { selector, .. } => Some(selector.name.clone()),
        _ => None,
    }
}

/// The name that an alias declaration's right-hand side is, parentheses
/// aside.
pub open spec fn spec_direct_alias_parameter(e: ExprSyntax) -> Option<Seq<char>>
    decreases e,
{
    match e.kind {
        ExprSyntaxKind::Paren(inner) => spec_direct_alias_parameter(*inner),
        ExprSyntaxKind::Ident(ident) => Some(ident.name@),
        _ => None,
    }
}

pub fn direct_alias_parameter(expression: &ExprSyntax) -> (r: Option<&str>)
    ensures
        match r {
            Some(s) => spec_direct_alias_parameter(*expression) == Some(s@),
            None => spec_direct_alias_parameter(*expression) is None,
        },
    decreases expression,
{
    match &expression.kind {
        ExprSyntaxKind::Paren(inner) => direct_alias_parameter(inner),
        ExprSyntaxKind::Ident(ident) => Some(ident.name.as_str()),
        _ => None,
    }
}

/// A type expression instantiates a generic type somewhere inside it.
pub open spec fn spec_type_contains_instantiation(e: ExprSyntax) -> bool
    decreases e, 1int,
{
    match e.kind {
        ExprSyntaxKind::Index { .. } | ExprSyntaxKind::IndexList { .. } => true,
        ExprSyntaxKind::Paren(inner) => spec_type_contains_instantiation(*inner),
        ExprSyntaxKind::Unary { expression, .. } => spec_type_contains_instantiation(*expression),
        ExprSyntaxKind::ArrayType { element, .. } => spec_type_contains_instantiation(*element),
        ExprSyntaxKind::ChannelType { element, .. } => spec_type_contains_instantiation(*element),
        ExprSyntaxKind::MapType { key, value } => spec_type_contains_instantiation(*key)
            || spec_type_contains_instantiation(*value),
        ExprSyntaxKind::FunctionType { params, results } => spec_fields_contain_instantiation(params.fields@)
            || match results {
            Some(r) => spec_fields_contain_instantiation(r.fields@),
            None => false,
        },
        ExprSyntaxKind::StructType { fields } => spec_fields_contain_instantiation(fields.fields@),
        ExprSyntaxKind::InterfaceType { methods } => spec_fields_contain_instantiation(methods.fields@),
        _ => false,
    }
}

pub open spec fn spec_fields_contain_instantiation(fields: Seq<FieldSyntax>) -> bool
    decreases fields, 0int,
{
    if fields.len() == 0 {
        false
    } else {
        spec_fields_contain_instantiation(fields.drop_last()) || match fields.last().ty {
            Some(t) => spec_type_contains_instantiation(t),
            None => false,
        }
    }
}

pub fn type_contains_instantiation(expression: &ExprSyntax) -> (r: bool)
    ensures
        r == spec_type_contains_instantiation(*expression),
    decreases *expression, 1int,
{
    match &expression.kind {
        ExprSyntaxKind::Index { .. } | ExprSyntaxKind::IndexList { .. } => true,
        ExprSyntaxKind::Paren(inner) => type_contains_instantiation(inner),
        ExprSyntaxKind::Unary { expression: inner, .. } => type_contains_instantiation(inner),
        ExprSyntaxKind::ArrayType { element, .. } => type_contains_instantiation(element),
        ExprSyntaxKind::ChannelType { element, .. } => type_contains_instantiation(element),
        ExprSyntaxKind::MapType { key, value } => type_contains_instantiation(key) || type_contains_instantiation(
            value,
        ),
        ExprSyntaxKind::FunctionType { params, results } => field_list_contains_instantiation(params) || match results {
            Some(r) => field_list_contains_instantiation(r),
            None => false,
        },
        ExprSyntaxKind::StructType { fields } => field_list_contains_instantiation(fields),
        ExprSyntaxKind::InterfaceType { methods } => field_list_contains_instantiation(methods),
        _ => false,
    }
}

pub fn field_list_contains_instantiation(fields: &FieldListSyntax) -> (r: bool)
    ensures
        r == spec_fields_contain_instantiation(fields.fields@),
    decreases fields.fields@, 0int,
{
    let mut i: usize = 0;
    proof {
        assert(fields.fields@.take(0) =~= Seq::<FieldSyntax>::empty());
    }
    while i < fields.fields.len()
        invariant
            i <= fields.fields@.len(),
            !spec_fields_contain_instantiation(fields.fields@.take(i as int)),
        decreases fields.fields@.len() - i,
    {
        proof {
            assert(fields.fields@.take(i + 1).drop_last() =~= fields.fields@.take(i as int));
            assert(decreases_to!(fields.fields@ => fields.fields@[i as int]));
            assert(decreases_to!(fields.fields@[i as int] => fields.fields@[i as int].ty));
        }
        let found = match &fields.fields[i].ty {
            Some(t) => type_contains_instantiation(t),
            None => false,
        };
        if found {
            proof {
                lemma_fields_prefix_instantiation(fields.fields@, i + 1);
            }
            return true;
        }
        i += 1;
    }
    proof {
        assert(fields.fields@.take(i as int) =~= fields.fields@);
    }
    false
}

proof fn lemma_fields_prefix_instantiation(fields: Seq<FieldSyntax>, i: int)
    requires
        0 <= i <= fields.len(),
        spec_fields_contain_instantiation(fields.take(i)),
    ensures
        spec_fields_contain_instantiation(fields),
    decreases fields.len() - i,
{
    if i == fields.len() {
        assert(fields.take(i) =~= fields);
    } else {
        assert(fields.take(i + 1).drop_last() =~= fields.take(i));
        lemma_fields_prefix_instantiation(fields, i + 1);
    }
}

} // verus!
