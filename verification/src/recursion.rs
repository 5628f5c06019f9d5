//! Weighted type-parameter flow for finite generic instantiation.

use vstd::prelude::*;

use crate::hir::{Diagnostic, DiagnosticKind, SourceRef};
use crate::syntax::{ExprSyntax, ExprSyntaxKind, FieldListSyntax, FieldSyntax, IdentSyntax};

verus! {

broadcast use vstd::seq_lib::group_seq_properties;

/// A type parameter slot of a generic type declaration.
#[derive(Clone, Copy, Debug, PartialEq, Eq, Structural)]
pub struct Vertex {
    pub definition: u64,
    pub parameter: usize,
}

/// A flow of a type parameter into a parameter slot of an instantiated
/// generic type; `derived` when the argument is more than the bare
/// parameter.
#[derive(Clone, Copy, Debug, PartialEq, Eq, Structural)]
pub struct Edge {
    pub source: Vertex,
    pub destination: Vertex,
    pub derived: bool,
}

/// Some edge leads from `u` to `v`.
pub open spec fn step(edges: Seq<Edge>, u: Vertex, v: Vertex) -> bool {
    exists|i: int| 0 <= i < edges.len() && (#[trigger] edges[i]).source == u && edges[i].destination == v
}

/// `p` is a walk along the edges.
pub open spec fn is_path(edges: Seq<Edge>, p: Seq<Vertex>) -> bool {
    &&& p.len() >= 1
    &&& forall|k: int| 0 <= k < p.len() - 1 ==> #[trigger] step(edges, p[k], p[k + 1])
}

/// A walk along the edges leads from one of the roots to `v`.
pub open spec fn reachable(edges: Seq<Edge>, roots: Seq<Vertex>, v: Vertex) -> bool {
    exists|p: Seq<Vertex>| #[trigger] is_path(edges, p) && roots.contains(p[0]) && p.last() == v
}

/// Every vertex that the edges can lead to from `seen` is in `seen`.
pub open spec fn closed(edges: Seq<Edge>, seen: Seq<Vertex>) -> bool {
    forall|i: int|
        0 <= i < edges.len() && seen.contains((#[trigger] edges[i]).source) ==> seen.contains(edges[i].destination)
}

/// The roots and the destinations of the edges: every vertex a search can
/// meet.
pub open spec fn universe(edges: Seq<Edge>, roots: Seq<Vertex>) -> Seq<Vertex> {
    roots + edges.map_values(|e: Edge| e.destination)
}

/// A set that holds the roots and is closed under the edges holds every
/// reachable vertex.
proof fn lemma_closed_holds_reachable(edges: Seq<Edge>, roots: Seq<Vertex>, seen: Seq<Vertex>, v: Vertex)
    requires
        forall|r: Vertex| roots.contains(r) ==> seen.contains(r),
        closed(edges, seen),
        reachable(edges, roots, v),
    ensures
        seen.contains(v),
{
    let p = choose|p: Seq<Vertex>| #[trigger] is_path(edges, p) && roots.contains(p[0]) && p.last() == v;
    lemma_path_stays_in(edges, seen, p, p.len() - 1);
}

/// Every vertex of a walk that starts in a closed set is in the set.
proof fn lemma_path_stays_in(edges: Seq<Edge>, seen: Seq<Vertex>, p: Seq<Vertex>, k: int)
    requires
        is_path(edges, p),
        seen.contains(p[0]),
        closed(edges, seen),
        0 <= k < p.len(),
    ensures
        seen.contains(p[k]),
    decreases k,
{
    if k > 0 {
        lemma_path_stays_in(edges, seen, p, k - 1);
        let j = k - 1;
        assert(step(edges, p[j], p[j + 1]));
        let i = choose|i: int| 0 <= i < edges.len() && (#[trigger] edges[i]).source == p[j] && edges[i].destination == p[j + 1];
    }
}

/// A search never holds more distinct vertices than it can meet.
proof fn lemma_seen_bound(seen: Seq<Vertex>, u: Seq<Vertex>)
    requires
        seen.no_duplicates(),
        forall|v: Vertex| seen.contains(v) ==> u.contains(v),
    ensures
        seen.len() <= u.len(),
{
    seen.unique_seq_to_set();
    u.lemma_cardinality_of_set();
    assert(seen.to_set().subset_of(u.to_set()));
    vstd::set_lib::lemma_len_subset(seen.to_set(), u.to_set());
}

/// Whether `v` occurs in `vertices`.
fn contains_vertex(vertices: &Vec<Vertex>, v: Vertex) -> (r: bool)
    ensures
        r == vertices@.contains(v),
{
    let mut i: usize = 0;
    while i < vertices.len()
        invariant
            i <= vertices@.len(),
            forall|j: int| 0 <= j < i ==> vertices@[j] != v,
        decreases vertices@.len() - i,
    {
        if vertices[i] == v {
            return true;
        }
        i += 1;
    }
    false
}

/// Visits the vertex at index `head`: every destination of an edge from it
/// joins `seen`, in edge order.
fn visit(seen: &mut Vec<Vertex>, head: usize, edges: &[Edge], Ghost(roots): Ghost<Seq<Vertex>>)
    requires
        head < old(seen)@.len(),
        old(seen)@.no_duplicates(),
        forall|v: Vertex| old(seen)@.contains(v) ==> universe(edges@, roots).contains(v),
        forall|v: Vertex| old(seen)@.contains(v) ==> reachable(edges@, roots, v),
    ensures
        final(seen)@.no_duplicates(),
        final(seen)@.len() >= old(seen)@.len(),
        final(seen)@.take(old(seen)@.len() as int) == old(seen)@,
        forall|v: Vertex| final(seen)@.contains(v) ==> universe(edges@, roots).contains(v),
        forall|v: Vertex| final(seen)@.contains(v) ==> reachable(edges@, roots, v),
        forall|i: int|
            0 <= i < edges@.len() && (#[trigger] edges@[i]).source == old(seen)@[head as int]
                ==> final(seen)@.contains(edges@[i].destination),
{
    let u = seen[head];
    let ghost start = seen@;
    let mut k: usize = 0;
    while k < edges.len()
        invariant
            k <= edges@.len(),
            head < start.len(),
            u == start[head as int],
            seen@.no_duplicates(),
            seen@.len() >= start.len(),
            seen@.take(start.len() as int) == start,
            forall|v: Vertex| seen@.contains(v) ==> universe(edges@, roots).contains(v),
            forall|v: Vertex| seen@.contains(v) ==> reachable(edges@, roots, v),
            forall|i: int| 0 <= i < k && (#[trigger] edges@[i]).source == u ==> seen@.contains(edges@[i].destination),
        decreases edges@.len() - k,
    {
        let edge = edges[k];
        if edge.source == u {
            let d = edge.destination;
            if !contains_vertex(seen, d) {
                proof {
                    assert(seen@.contains(u)) by {
                        assert(seen@.take(start.len() as int)[head as int] == u);
                    }
                    let p = choose|p: Seq<Vertex>|
                        #[trigger] is_path(edges@, p) && roots.contains(p[0]) && p.last() == u;
                    let q = p.push(d);
                    assert(step(edges@, u, d));
                    assert forall|j: int| 0 <= j < q.len() - 1 implies #[trigger] step(edges@, q[j], q[j + 1]) by {
                        if j < p.len() - 1 {
                            assert(q[j] == p[j] && q[j + 1] == p[j + 1]);
                        }
                    }
                    assert(is_path(edges@, q));
                    assert(q[0] == p[0]);
                    assert(universe(edges@, roots)[roots.len() + k] == d);
                }
                let ghost before = seen@;
                seen.push(d);
                proof {
                    assert forall|v: Vertex| seen@.contains(v) implies universe(edges@, roots).contains(v) by {
                        if v != d {
                            let j = choose|j: int| 0 <= j < seen@.len() && seen@[j] == v;
                            assert(before[j] == v);
                        }
                    }
                    assert forall|v: Vertex| seen@.contains(v) implies reachable(edges@, roots, v) by {
                        if v != d {
                            let j = choose|j: int| 0 <= j < seen@.len() && seen@[j] == v;
                            assert(before[j] == v);
                        }
                    }
                    assert(seen@.take(start.len() as int) =~= before.take(start.len() as int));
                    assert forall|i: int| 0 <= i < k + 1 && (#[trigger] edges@[i]).source == u implies seen@.contains(
                        edges@[i].destination,
                    ) by {
                        if i < k {
                            let j = choose|j: int| 0 <= j < before.len() && before[j] == edges@[i].destination;
                            assert(seen@[j] == before[j]);
                        }
                    }
                }
            }
        }
        k += 1;
    }
}

/// The vertices reachable from the roots, each once.
pub fn reachable_vertices(roots: &[Vertex], edges: &[Edge]) -> (r: Vec<Vertex>)
    ensures
        r@.no_duplicates(),
        forall|v: Vertex| r@.contains(v) <==> reachable(edges@, roots@, v),
{
    let ghost u = universe(edges@, roots@);
    let mut seen: Vec<Vertex> = Vec::new();
    let mut i: usize = 0;
    while i < roots.len()
        invariant
            i <= roots@.len(),
            u == universe(edges@, roots@),
            seen@.no_duplicates(),
            forall|v: Vertex| seen@.contains(v) <==> roots@.take(i as int).contains(v),
        decreases roots@.len() - i,
    {
        let r = roots[i];
        if !contains_vertex(&seen, r) {
            seen.push(r);
        }
        proof {
            assert forall|v: Vertex| seen@.contains(v) <==> roots@.take(i + 1).contains(v) by {
                if roots@.take(i + 1).contains(v) {
                    let j = choose|j: int| 0 <= j < i + 1 && #[trigger] roots@.take(i + 1)[j] == v;
                    if j < i {
                        assert(roots@.take(i as int)[j] == v);
                    }
                }
                if roots@.take(i as int).contains(v) {
                    let j = choose|j: int| 0 <= j < i && #[trigger] roots@.take(i as int)[j] == v;
                    assert(roots@.take(i + 1)[j] == v);
                }
            }
        }
        i += 1;
    }
    proof {
        assert(roots@.take(i as int) =~= roots@);
        assert forall|v: Vertex| seen@.contains(v) implies reachable(edges@, roots@, v) by {
            let p = seq![v];
            assert(is_path(edges@, p));
        }
        assert forall|v: Vertex| seen@.contains(v) implies u.contains(v) by {
            let j = choose|j: int| 0 <= j < roots@.len() && roots@[j] == v;
            assert(u[j] == v);
        }
    }
    let mut head: usize = 0;
    while head < seen.len()
        invariant
            u == universe(edges@, roots@),
            head <= seen@.len(),
            seen@.no_duplicates(),
            forall|r: Vertex| roots@.contains(r) ==> seen@.contains(r),
            forall|v: Vertex| seen@.contains(v) ==> u.contains(v),
            forall|v: Vertex| seen@.contains(v) ==> reachable(edges@, roots@, v),
            forall|j: int, i: int|
                0 <= j < head && 0 <= i < edges@.len() && (#[trigger] edges@[i]).source == #[trigger] seen@[j]
                    ==> seen@.contains(edges@[i].destination),
        decreases u.len() - head,
    {
        proof {
            lemma_seen_bound(seen@, u);
        }
        let ghost before = seen@;
        visit(&mut seen, head, edges, Ghost(roots@));
        proof {
            assert forall|r: Vertex| roots@.contains(r) implies seen@.contains(r) by {
                let j = choose|j: int| 0 <= j < before.len() && before[j] == r;
                assert(seen@.take(before.len() as int)[j] == r);
            }
            assert forall|j: int, i: int|
                0 <= j < head + 1 && 0 <= i < edges@.len() && (#[trigger] edges@[i]).source == #[trigger] seen@[j]
                    implies seen@.contains(edges@[i].destination) by {
                assert(seen@.take(before.len() as int)[j] == before[j]);
                if j < head {
                    let w = choose|w: int| 0 <= w < before.len() && before[w] == edges@[i].destination;
                    assert(seen@.take(before.len() as int)[w] == before[w]);
                }
            }
            lemma_seen_bound(seen@, u);
        }
        head += 1;
    }
    proof {
        assert(closed(edges@, seen@)) by {
            assert forall|i: int| 0 <= i < edges@.len() && seen@.contains((#[trigger] edges@[i]).source) implies seen@.contains(
                edges@[i].destination,
            ) by {
                let j = choose|j: int| 0 <= j < seen@.len() && seen@[j] == edges@[i].source;
            }
        }
        assert forall|v: Vertex| reachable(edges@, roots@, v) implies seen@.contains(v) by {
            lemma_closed_holds_reachable(edges@, roots@, seen@, v);
        }
    }
    seen
}

/// Whether a walk along the edges leads from `start` to `target`.
pub fn path_exists(start: Vertex, target: Vertex, edges: &[Edge]) -> (r: bool)
    ensures
        r == reachable(edges@, seq![start], target),
{
    let ghost roots = seq![start];
    let ghost u = universe(edges@, roots);
    let mut seen: Vec<Vertex> = Vec::new();
    seen.push(start);
    proof {
        assert(seen@ =~= roots);
        assert(is_path(edges@, seq![start]));
        assert(u[0] == start);
    }
    let mut head: usize = 0;
    while head < seen.len()
        invariant
            roots == seq![start],
            u == universe(edges@, roots),
            head <= seen@.len(),
            seen@.len() >= 1,
            seen@[0] == start,
            seen@.no_duplicates(),
            forall|v: Vertex| seen@.contains(v) ==> u.contains(v),
            forall|v: Vertex| seen@.contains(v) ==> reachable(edges@, roots, v),
            forall|j: int| 0 <= j < head ==> seen@[j] != target,
            forall|j: int, i: int|
                0 <= j < head && 0 <= i < edges@.len() && (#[trigger] edges@[i]).source == #[trigger] seen@[j]
                    ==> seen@.contains(edges@[i].destination),
        decreases u.len() - head,
    {
        proof {
            lemma_seen_bound(seen@, u);
        }
        if seen[head] == target {
            proof {
                assert(seen@.contains(target));
            }
            return true;
        }
        let ghost before = seen@;
        visit(&mut seen, head, edges, Ghost(roots));
        proof {
            assert(seen@[0] == seen@.take(before.len() as int)[0]);
            assert forall|j: int| 0 <= j < head + 1 implies seen@[j] != target by {
                assert(seen@.take(before.len() as int)[j] == before[j]);
            }
            assert forall|j: int, i: int|
                0 <= j < head + 1 && 0 <= i < edges@.len() && (#[trigger] edges@[i]).source == #[trigger] seen@[j]
                    implies seen@.contains(edges@[i].destination) by {
                assert(seen@.take(before.len() as int)[j] == before[j]);
                if j < head {
                    let w = choose|w: int| 0 <= w < before.len() && before[w] == edges@[i].destination;
                    assert(seen@.take(before.len() as int)[w] == before[w]);
                }
            }
            lemma_seen_bound(seen@, u);
        }
        head += 1;
    }
    proof {
        assert(closed(edges@, seen@)) by {
            assert forall|i: int| 0 <= i < edges@.len() && seen@.contains((#[trigger] edges@[i]).source) implies seen@.contains(
                edges@[i].destination,
            ) by {
                let j = choose|j: int| 0 <= j < seen@.len() && seen@[j] == edges@[i].source;
            }
        }
        assert forall|r: Vertex| roots.contains(r) implies seen@.contains(r) by {
            assert(seen@[0] == start);
        }
        if reachable(edges@, roots, target) {
            lemma_closed_holds_reachable(edges@, roots, seen@, target);
        }
    }
    false
}

/// Every vertex reaches itself.
pub proof fn lemma_reachable_reflexive(edges: Seq<Edge>, v: Vertex)
    ensures
        reachable(edges, seq![v], v),
{
    assert(is_path(edges, seq![v]));
}

/// An edge is a walk.
pub proof fn lemma_edge_reachable(edges: Seq<Edge>, i: int)
    requires
        0 <= i < edges.len(),
    ensures
        reachable(edges, seq![edges[i].source], edges[i].destination),
{
    let p = seq![edges[i].source, edges[i].destination];
    assert(step(edges, p[0], p[1]));
    assert(is_path(edges, p));
}

/// Reachability is transitive: walks can be joined.
pub proof fn lemma_reachable_transitive(edges: Seq<Edge>, a: Vertex, b: Vertex, c: Vertex)
    requires
        reachable(edges, seq![a], b),
        reachable(edges, seq![b], c),
    ensures
        reachable(edges, seq![a], c),
{
    let p = choose|p: Seq<Vertex>| #[trigger] is_path(edges, p) && seq![a].contains(p[0]) && p.last() == b;
    let q = choose|q: Seq<Vertex>| #[trigger] is_path(edges, q) && seq![b].contains(q[0]) && q.last() == c;
    assert(p[0] == a);
    assert(q[0] == b);
    let w = p + q.drop_first();
    assert forall|k: int| 0 <= k < w.len() - 1 implies #[trigger] step(edges, w[k], w[k + 1]) by {
        if k < p.len() - 1 {
            assert(w[k] == p[k] && w[k + 1] == p[k + 1]);
        } else if k == p.len() - 1 {
            assert(w[k] == b);
            assert(w[k + 1] == q[1]);
            let z: int = 0;
            assert(step(edges, q[z], q[z + 1]));
        } else {
            let m = k - p.len() + 1;
            assert(w[k] == q[m]);
            assert(w[k + 1] == q[m + 1]);
            assert(step(edges, q[m], q[m + 1]));
        }
    }
    if q.len() == 1 {
        assert(w =~= p);
    } else {
        assert(w.last() == q.last());
    }
    assert(is_path(edges, w));
}

/// The parameter slots that a type parameter list declares, in order: a
/// name, or nothing for `_`.
pub open spec fn param_slots(fields: Seq<FieldSyntax>) -> Seq<Option<Seq<char>>>
    decreases fields.len(),
{
    if fields.len() == 0 {
        Seq::empty()
    } else {
        param_slots(fields.drop_last()) + match fields.last().names {
            Some(names) => names@.map_values(|n: IdentSyntax| if n.name@ == "_"@ { None } else { Some(n.name@) }),
            None => Seq::empty(),
        }
    }
}

/// The view of a list of parameter slots.
pub open spec fn slot_views(p: Seq<Option<String>>) -> Seq<Option<Seq<char>>> {
    p.map_values(|o: Option<String>| match o {
        Some(s) => Some(s@),
        None => None,
    })
}

pub fn parameter_slots(fields: &FieldListSyntax) -> (r: Vec<Option<String>>)
    ensures
        slot_views(r@) == param_slots(fields.fields@),
{
    let mut slots: Vec<Option<String>> = Vec::new();
    let mut i: usize = 0;
    proof {
        assert(fields.fields@.take(0) =~= Seq::<FieldSyntax>::empty());
        assert(slot_views(slots@) =~= Seq::<Option<Seq<char>>>::empty());
    }
    while i < fields.fields.len()
        invariant
            i <= fields.fields@.len(),
            slot_views(slots@) == param_slots(fields.fields@.take(i as int)),
        decreases fields.fields@.len() - i,
    {
        proof {
            assert(fields.fields@.take(i + 1).drop_last() =~= fields.fields@.take(i as int));
        }
        let ghost base = slot_views(slots@);
        if let Some(names) = &fields.fields[i].names {
            let mut j: usize = 0;
            while j < names.len()
                invariant
                    j <= names@.len(),
                    slot_views(slots@) == base + names@.take(j as int).map_values(
                        |n: IdentSyntax| if n.name@ == "_"@ { None } else { Some(n.name@) },
                    ),
                decreases names@.len() - j,
            {
                let name = &names[j].name;
                let slot = if *name == String::from_str("_") { None } else { Some(name.clone()) };
                let ghost prev = slots@;
                slots.push(slot);
                proof {
                    assert(slot_views(slots@) =~= slot_views(prev).push(
                        if name@ == "_"@ { None } else { Some(name@) },
                    ));
                    assert(names@.take(j + 1) =~= names@.take(j as int).push(names@[j as int]));
                    assert(slot_views(slots@) =~= base + names@.take(j + 1).map_values(
                        |n: IdentSyntax| if n.name@ == "_"@ { None } else { Some(n.name@) },
                    ));
                }
                j += 1;
            }
            proof {
                assert(names@.take(j as int) =~= names@);
            }
        } else {
            proof {
                assert(slot_views(slots@) =~= base + Seq::<Option<Seq<char>>>::empty());
            }
        }
        i += 1;
    }
    proof {
        assert(fields.fields@.take(i as int) =~= fields.fields@);
    }
    slots
}

/// The first slot that holds the name.
pub open spec fn first_slot(params: Seq<Option<Seq<char>>>, name: Seq<char>) -> Option<int>
    decreases params.len(),
{
    if params.len() == 0 {
        None
    } else {
        match first_slot(params.drop_last(), name) {
            Some(i) => Some(i),
            None => if params.last() == Some(name) {
                Some(params.len() - 1)
            } else {
                None
            },
        }
    }
}

/// The parameter slot that an argument names directly, parentheses aside.
pub open spec fn spec_bare_parameter(e: ExprSyntax, params: Seq<Option<Seq<char>>>) -> Option<int>
    decreases e,
{
    match e.kind {
        ExprSyntaxKind::Paren(inner) => spec_bare_parameter(*inner, params),
        ExprSyntaxKind::Ident(ident) => first_slot(params, ident.name@),
        _ => None,
    }
}

pub fn bare_parameter(expression: &ExprSyntax, parameters: &[Option<String>]) -> (r: Option<usize>)
    ensures
        match r {
            Some(i) => spec_bare_parameter(*expression, slot_views(parameters@)) == Some(i as int),
            None => spec_bare_parameter(*expression, slot_views(parameters@)) is None,
        },
    decreases expression,
{
    match &expression.kind {
        ExprSyntaxKind::Paren(inner) => bare_parameter(inner, parameters),
        ExprSyntaxKind::Ident(ident) => {
            let ghost params = slot_views(parameters@);
            let mut i: usize = 0;
            proof {
                assert(params.take(0) =~= Seq::<Option<Seq<char>>>::empty());
            }
            while i < parameters.len()
                invariant
                    i <= parameters@.len(),
                    params == slot_views(parameters@),
                    expression.kind == ExprSyntaxKind::Ident(*ident),
                    first_slot(params.take(i as int), ident.name@) is None,
                decreases parameters@.len() - i,
            {
                proof {
                    assert(params.take(i + 1).drop_last() =~= params.take(i as int));
                }
                let hit = match &parameters[i] {
                    Some(p) => *p == ident.name,
                    None => false,
                };
                if hit {
                    proof {
                        assert(params[i as int] == Some(ident.name@));
                        assert(params.take(i + 1).last() == params[i as int]);
                        assert(first_slot(params.take(i + 1), ident.name@) == Some(i as int));
                        lemma_first_slot_prefix(params, i + 1, ident.name@);
                        assert(first_slot(params, ident.name@) == Some(i as int));
                        assert(expression.kind == ExprSyntaxKind::Ident(*ident));
                        assert(spec_bare_parameter(*expression, params) == first_slot(params, ident.name@));
                    }
                    return Some(i);
                }
                proof {
                    assert(params.take(i + 1).last() == params[i as int]);
                    assert(params[i as int] != Some(ident.name@));
                }
                i += 1;
            }
            proof {
                assert(params.take(i as int) =~= params);
            }
            None
        },
        _ => None,
    }
}

proof fn lemma_first_slot_prefix(params: Seq<Option<Seq<char>>>, i: int, name: Seq<char>)
    requires
        0 <= i <= params.len(),
        first_slot(params.take(i), name) is Some,
    ensures
        first_slot(params, name) == first_slot(params.take(i), name),
    decreases params.len() - i,
{
    if i < params.len() {
        assert(params.take(i + 1).drop_last() =~= params.take(i));
        lemma_first_slot_prefix(params, i + 1, name);
    } else {
        assert(params.take(i) =~= params);
    }
}

/// Some sub-expression of `e`, `e` included, satisfies `p`.
pub open spec fn any_sub(e: ExprSyntax, p: spec_fn(ExprSyntax) -> bool) -> bool
    decreases e, 1int,
{
    p(e) || match e.kind {
        ExprSyntaxKind::Paren(inner) => any_sub(*inner, p),
        ExprSyntaxKind::Unary { expression, .. } => any_sub(*expression, p),
        ExprSyntaxKind::Binary { left, right, .. } => any_sub(*left, p) || any_sub(*right, p),
        ExprSyntaxKind::MapType { key, value } => any_sub(*key, p) || any_sub(*value, p),
        ExprSyntaxKind::KeyValue { key, value } => any_sub(*key, p) || any_sub(*value, p),
        ExprSyntaxKind::Call { callee, arguments, .. } => any_sub(*callee, p) || any_sub_seq(arguments@, p),
        ExprSyntaxKind::FunctionLiteral { params, results, .. } => any_sub_fields(params.fields@, p) || match results {
            Some(r) => any_sub_fields(r.fields@, p),
            None => false,
        },
        ExprSyntaxKind::FunctionType { params, results } => any_sub_fields(params.fields@, p) || match results {
            Some(r) => any_sub_fields(r.fields@, p),
            None => false,
        },
        ExprSyntaxKind::Selector { base, .. } => any_sub(*base, p),
        ExprSyntaxKind::TypeAssert { value, asserted } => any_sub(*value, p) || match asserted {
            Some(a) => any_sub(*a, p),
            None => false,
        },
        ExprSyntaxKind::ArrayType { length, element } => (match length {
            Some(l) => any_sub(*l, p),
            None => false,
        }) || any_sub(*element, p),
        ExprSyntaxKind::ChannelType { element, .. } => any_sub(*element, p),
        ExprSyntaxKind::StructType { fields } => any_sub_fields(fields.fields@, p),
        ExprSyntaxKind::InterfaceType { methods } => any_sub_fields(methods.fields@, p),
        ExprSyntaxKind::CompositeLiteral { ty, elements } => (match ty {
            Some(t) => any_sub(*t, p),
            None => false,
        }) || any_sub_seq(elements@, p),
        ExprSyntaxKind::Index { base, index } => any_sub(*base, p) || any_sub(*index, p),
        ExprSyntaxKind::IndexList { base, indices } => any_sub(*base, p) || any_sub_seq(indices@, p),
        ExprSyntaxKind::Slice { base, low, high, max } => any_sub(*base, p) || (match low {
            Some(x) => any_sub(*x, p),
            None => false,
        }) || (match high {
            Some(x) => any_sub(*x, p),
            None => false,
        }) || (match max {
            Some(x) => any_sub(*x, p),
            None => false,
        }),
        _ => false,
    }
}

pub open spec fn any_sub_seq(s: Seq<ExprSyntax>, p: spec_fn(ExprSyntax) -> bool) -> bool
    decreases s, 0int,
{
    if s.len() == 0 {
        false
    } else {
        any_sub_seq(s.drop_last(), p) || any_sub(s.last(), p)
    }
}

pub open spec fn any_sub_fields(s: Seq<FieldSyntax>, p: spec_fn(ExprSyntax) -> bool) -> bool
    decreases s, 0int,
{
    if s.len() == 0 {
        false
    } else {
        any_sub_fields(s.drop_last(), p) || match s.last().ty {
            Some(t) => any_sub(t, p),
            None => false,
        }
    }
}

/// The identifier names the parameter in slot `k`.
pub open spec fn names_slot(x: ExprSyntax, params: Seq<Option<Seq<char>>>, k: int) -> bool {
    match x.kind {
        ExprSyntaxKind::Ident(id) => 0 <= k < params.len() && params[k] == Some(id.name@),
        _ => false,
    }
}

/// The types written in a field list, in order.
pub open spec fn field_types(fields: Seq<FieldSyntax>) -> Seq<ExprSyntax>
    decreases fields.len(),
{
    if fields.len() == 0 {
        Seq::empty()
    } else {
        field_types(fields.drop_last()) + match fields.last().ty {
            Some(t) => seq![t],
            None => Seq::empty(),
        }
    }
}

/// An optional sub-expression as a list of at most one.
pub open spec fn optional_child(o: Option<Box<ExprSyntax>>) -> Seq<ExprSyntax> {
    match o {
        Some(b) => seq![*b],
        None => Seq::empty(),
    }
}

/// The types of a parameter list and of an optional result list.
pub open spec fn signature_children(params: FieldListSyntax, results: Option<FieldListSyntax>) -> Seq<ExprSyntax> {
    field_types(params.fields@) + match results {
        Some(r) => field_types(r.fields@),
        None => Seq::empty(),
    }
}

/// The direct sub-expressions of `e`, in source order.
pub open spec fn children_of(e: ExprSyntax) -> Seq<ExprSyntax> {
    match e.kind {
        ExprSyntaxKind::Paren(inner) => seq![*inner],
        ExprSyntaxKind::Unary { expression, .. } => seq![*expression],
        ExprSyntaxKind::Binary { left, right, .. } => seq![*left, *right],
        ExprSyntaxKind::MapType { key, value } => seq![*key, *value],
        ExprSyntaxKind::KeyValue { key, value } => seq![*key, *value],
        ExprSyntaxKind::Call { callee, arguments, .. } => seq![*callee] + arguments@,
        ExprSyntaxKind::FunctionLiteral { params, results, .. } => signature_children(params, results),
        ExprSyntaxKind::FunctionType { params, results } => signature_children(params, results),
        ExprSyntaxKind::Selector { base, .. } => seq![*base],
        ExprSyntaxKind::TypeAssert { value, asserted } => seq![*value] + optional_child(asserted),
        ExprSyntaxKind::ArrayType { length, element } => optional_child(length) + seq![*element],
        ExprSyntaxKind::ChannelType { element, .. } => seq![*element],
        ExprSyntaxKind::StructType { fields } => field_types(fields.fields@),
        ExprSyntaxKind::InterfaceType { methods } => field_types(methods.fields@),
        ExprSyntaxKind::CompositeLiteral { ty, elements } => optional_child(ty) + elements@,
        ExprSyntaxKind::Index { base, index } => seq![*base, *index],
        ExprSyntaxKind::IndexList { base, indices } => seq![*base] + indices@,
        ExprSyntaxKind::Slice { base, low, high, max } => seq![*base] + optional_child(low) + optional_child(high)
            + optional_child(max),
        _ => Seq::empty(),
    }
}

/// The expressions behind a list of references.
pub open spec fn derefs(s: Seq<&ExprSyntax>) -> Seq<ExprSyntax> {
    s.map_values(|r: &ExprSyntax| *r)
}

proof fn lemma_any_sub_seq_append(a: Seq<ExprSyntax>, b: Seq<ExprSyntax>, p: spec_fn(ExprSyntax) -> bool)
    ensures
        any_sub_seq(a + b, p) == (any_sub_seq(a, p) || any_sub_seq(b, p)),
    decreases b.len(),
{
    if b.len() == 0 {
        assert(a + b =~= a);
    } else {
        assert((a + b).drop_last() =~= a + b.drop_last());
        lemma_any_sub_seq_append(a, b.drop_last(), p);
    }
}

proof fn lemma_any_sub_seq_one(x: ExprSyntax, p: spec_fn(ExprSyntax) -> bool)
    ensures
        any_sub_seq(seq![x], p) == any_sub(x, p),
{
    assert(seq![x].drop_last() =~= Seq::<ExprSyntax>::empty());
    assert(!any_sub_seq(Seq::<ExprSyntax>::empty(), p));
    assert(seq![x].last() == x);
}

proof fn lemma_any_sub_fields_types(f: Seq<FieldSyntax>, p: spec_fn(ExprSyntax) -> bool)
    ensures
        any_sub_fields(f, p) == any_sub_seq(field_types(f), p),
    decreases f.len(),
{
    if f.len() > 0 {
        lemma_any_sub_fields_types(f.drop_last(), p);
        match f.last().ty {
            Some(t) => {
                lemma_any_sub_seq_append(field_types(f.drop_last()), seq![t], p);
                lemma_any_sub_seq_one(t, p);
            },
            None => {
                assert(field_types(f) =~= field_types(f.drop_last()));
            },
        }
    }
}

proof fn lemma_any_sub_optional(o: Option<Box<ExprSyntax>>, p: spec_fn(ExprSyntax) -> bool)
    ensures
        any_sub_seq(optional_child(o), p) == match o {
            Some(x) => any_sub(*x, p),
            None => false,
        },
{
    match o {
        Some(x) => lemma_any_sub_seq_one(*x, p),
        None => {},
    }
}

/// Some sub-expression satisfies `p` exactly when `e` does or one of its
/// children holds such a sub-expression.
pub proof fn lemma_any_sub_children(e: ExprSyntax, p: spec_fn(ExprSyntax) -> bool)
    ensures
        any_sub(e, p) == (p(e) || any_sub_seq(children_of(e), p)),
{
    match e.kind {
        ExprSyntaxKind::Paren(inner) => lemma_any_sub_seq_one(*inner, p),
        ExprSyntaxKind::Unary { expression, .. } => lemma_any_sub_seq_one(*expression, p),
        ExprSyntaxKind::Binary { left, right, .. } => {
            lemma_any_sub_seq_append(seq![*left], seq![*right], p);
            lemma_any_sub_seq_one(*left, p);
            lemma_any_sub_seq_one(*right, p);
            assert(seq![*left] + seq![*right] =~= seq![*left, *right]);
        },
        ExprSyntaxKind::MapType { key, value } => {
            lemma_any_sub_seq_append(seq![*key], seq![*value], p);
            lemma_any_sub_seq_one(*key, p);
            lemma_any_sub_seq_one(*value, p);
            assert(seq![*key] + seq![*value] =~= seq![*key, *value]);
        },
        ExprSyntaxKind::KeyValue { key, value } => {
            lemma_any_sub_seq_append(seq![*key], seq![*value], p);
            lemma_any_sub_seq_one(*key, p);
            lemma_any_sub_seq_one(*value, p);
            assert(seq![*key] + seq![*value] =~= seq![*key, *value]);
        },
        ExprSyntaxKind::Call { callee, arguments, .. } => {
            lemma_any_sub_seq_append(seq![*callee], arguments@, p);
            lemma_any_sub_seq_one(*callee, p);
        },
        ExprSyntaxKind::FunctionLiteral { params, results, .. } => {
            lemma_any_sub_fields_types(params.fields@, p);
            match results {
                Some(r) => {
                    lemma_any_sub_fields_types(r.fields@, p);
                    lemma_any_sub_seq_append(field_types(params.fields@), field_types(r.fields@), p);
                },
                None => {
                    assert(signature_children(params, results) =~= field_types(params.fields@));
                },
            }
        },
        ExprSyntaxKind::FunctionType { params, results } => {
            lemma_any_sub_fields_types(params.fields@, p);
            match results {
                Some(r) => {
                    lemma_any_sub_fields_types(r.fields@, p);
                    lemma_any_sub_seq_append(field_types(params.fields@), field_types(r.fields@), p);
                },
                None => {
                    assert(signature_children(params, results) =~= field_types(params.fields@));
                },
            }
        },
        ExprSyntaxKind::Selector { base, .. } => lemma_any_sub_seq_one(*base, p),
        ExprSyntaxKind::TypeAssert { value, asserted } => {
            lemma_any_sub_seq_append(seq![*value], optional_child(asserted), p);
            lemma_any_sub_seq_one(*value, p);
            lemma_any_sub_optional(asserted, p);
        },
        ExprSyntaxKind::ArrayType { length, element } => {
            lemma_any_sub_seq_append(optional_child(length), seq![*element], p);
            lemma_any_sub_seq_one(*element, p);
            lemma_any_sub_optional(length, p);
        },
        ExprSyntaxKind::ChannelType { element, .. } => lemma_any_sub_seq_one(*element, p),
        ExprSyntaxKind::StructType { fields } => lemma_any_sub_fields_types(fields.fields@, p),
        ExprSyntaxKind::InterfaceType { methods } => lemma_any_sub_fields_types(methods.fields@, p),
        ExprSyntaxKind::CompositeLiteral { ty, elements } => {
            lemma_any_sub_seq_append(optional_child(ty), elements@, p);
            lemma_any_sub_optional(ty, p);
        },
        ExprSyntaxKind::Index { base, index } => {
            lemma_any_sub_seq_append(seq![*base], seq![*index], p);
            lemma_any_sub_seq_one(*base, p);
            lemma_any_sub_seq_one(*index, p);
            assert(seq![*base] + seq![*index] =~= seq![*base, *index]);
        },
        ExprSyntaxKind::IndexList { base, indices } => {
            lemma_any_sub_seq_append(seq![*base], indices@, p);
            lemma_any_sub_seq_one(*base, p);
        },
        ExprSyntaxKind::Slice { base, low, high, max } => {
            let a = seq![*base];
            let b = optional_child(low);
            let c = optional_child(high);
            let d = optional_child(max);
            lemma_any_sub_seq_append(a + b + c, d, p);
            lemma_any_sub_seq_append(a + b, c, p);
            lemma_any_sub_seq_append(a, b, p);
            lemma_any_sub_seq_one(*base, p);
            lemma_any_sub_optional(low, p);
            lemma_any_sub_optional(high, p);
            lemma_any_sub_optional(max, p);
        },
        _ => {},
    }
}

proof fn lemma_field_type_source(f: Seq<FieldSyntax>, i: int)
    requires
        0 <= i < field_types(f).len(),
    ensures
        exists|j: int| 0 <= j < f.len() && #[trigger] f[j].ty == Some(field_types(f)[i]),
    decreases f.len(),
{
    let head = field_types(f.drop_last());
    if i < head.len() {
        lemma_field_type_source(f.drop_last(), i);
        let j = choose|j: int| 0 <= j < f.drop_last().len() && #[trigger] f.drop_last()[j].ty == Some(head[i]);
        assert(f[j].ty == Some(field_types(f)[i]));
    } else {
        let j = f.len() - 1;
        assert(f[j].ty == Some(field_types(f)[i]));
    }
}

proof fn lemma_field_child_decreases(l: FieldListSyntax, x: ExprSyntax)
    requires
        field_types(l.fields@).contains(x),
    ensures
        decreases_to!(l => x),
{
    let i = choose|i: int| 0 <= i < field_types(l.fields@).len() && field_types(l.fields@)[i] == x;
    lemma_field_type_source(l.fields@, i);
    let j = choose|j: int| 0 <= j < l.fields@.len() && #[trigger] l.fields@[j].ty == Some(field_types(l.fields@)[i]);
    let f = l.fields@[j];
    assert(decreases_to!(l => l.fields));
    assert(decreases_to!(l.fields => l.fields@));
    assert(decreases_to!(l.fields@ => f));
    assert(decreases_to!(f => f.ty));
    assert(decreases_to!(f.ty => f.ty->0));
}

/// Each child is smaller than the expression it belongs to.
proof fn lemma_child_decreases(e: ExprSyntax, i: int)
    requires
        0 <= i < children_of(e).len(),
    ensures
        decreases_to!(e => children_of(e)[i]),
{
    let x = children_of(e)[i];
    assert(children_of(e).contains(x));
    assert(decreases_to!(e => e.kind));
    match e.kind {
        ExprSyntaxKind::Call { callee, arguments, .. } => {
            if i > 0 {
                assert(x == arguments@[i - 1]);
                assert(decreases_to!(e.kind => arguments));
                assert(decreases_to!(arguments => arguments@));
                assert(decreases_to!(arguments@ => arguments@[i - 1]));
            }
        },
        ExprSyntaxKind::FunctionLiteral { params, results, .. } => {
            let a = field_types(params.fields@);
            if i < a.len() {
                assert(a.contains(x));
                lemma_field_child_decreases(params, x);
            } else {
                let r = results->0;
                assert(field_types(r.fields@).contains(x));
                lemma_field_child_decreases(r, x);
                assert(decreases_to!(e.kind => results));
                assert(decreases_to!(results => r));
            }
        },
        ExprSyntaxKind::FunctionType { params, results } => {
            let a = field_types(params.fields@);
            if i < a.len() {
                assert(a.contains(x));
                lemma_field_child_decreases(params, x);
            } else {
                let r = results->0;
                assert(field_types(r.fields@).contains(x));
                lemma_field_child_decreases(r, x);
                assert(decreases_to!(e.kind => results));
                assert(decreases_to!(results => r));
            }
        },
        ExprSyntaxKind::StructType { fields } => lemma_field_child_decreases(fields, x),
        ExprSyntaxKind::InterfaceType { methods } => lemma_field_child_decreases(methods, x),
        ExprSyntaxKind::TypeAssert { value, asserted } => {
            if i > 0 {
                assert(decreases_to!(e.kind => asserted));
                assert(decreases_to!(asserted => asserted->0));
            }
        },
        ExprSyntaxKind::ArrayType { length, element } => {
            if i < optional_child(length).len() {
                assert(decreases_to!(e.kind => length));
                assert(decreases_to!(length => length->0));
            }
        },
        ExprSyntaxKind::CompositeLiteral { ty, elements } => {
            let a = optional_child(ty);
            if i < a.len() {
                assert(decreases_to!(e.kind => ty));
                assert(decreases_to!(ty => ty->0));
            } else {
                assert(x == elements@[i - a.len()]);
                assert(decreases_to!(e.kind => elements));
                assert(decreases_to!(elements => elements@));
                assert(decreases_to!(elements@ => elements@[i - a.len()]));
            }
        },
        ExprSyntaxKind::IndexList { base, indices } => {
            if i > 0 {
                assert(x == indices@[i - 1]);
                assert(decreases_to!(e.kind => indices));
                assert(decreases_to!(indices => indices@));
                assert(decreases_to!(indices@ => indices@[i - 1]));
            }
        },
        ExprSyntaxKind::Slice { base, low, high, max } => {
            if i > 0 {
                assert(decreases_to!(e.kind => low));
                assert(decreases_to!(e.kind => high));
                assert(decreases_to!(e.kind => max));
                if low is Some {
                    assert(decreases_to!(low => low->0));
                }
                if high is Some {
                    assert(decreases_to!(high => high->0));
                }
                if max is Some {
                    assert(decreases_to!(max => max->0));
                }
            }
        },
        _ => {},
    }
}

/// Appends the types of a parameter list and of an optional result list.
pub fn collect_field_children<'a>(
    fields: &'a FieldListSyntax,
    children: &mut Vec<&'a ExprSyntax>,
    results: Option<&'a FieldListSyntax>,
)
    ensures
        derefs(final(children)@) == derefs(old(children)@) + field_types(fields.fields@) + match results {
            Some(r) => field_types(r.fields@),
            None => Seq::empty(),
        },
{
    push_field_types(&fields.fields, children);
    match results {
        Some(r) => push_field_types(&r.fields, children),
        None => {
            assert(derefs(children@) =~= derefs(children@) + Seq::<ExprSyntax>::empty());
        },
    }
}

fn push_one<'a>(expression: &'a ExprSyntax, children: &mut Vec<&'a ExprSyntax>)
    ensures
        derefs(final(children)@) == derefs(old(children)@) + seq![*expression],
{
    children.push(expression);
    assert(derefs(children@) =~= derefs(old(children)@) + seq![*expression]);
}

fn push_field_types<'a>(fields: &'a Vec<FieldSyntax>, children: &mut Vec<&'a ExprSyntax>)
    ensures
        derefs(final(children)@) == derefs(old(children)@) + field_types(fields@),
{
    let ghost start = derefs(children@);
    let mut i: usize = 0;
    proof {
        assert(fields@.take(0) =~= Seq::<FieldSyntax>::empty());
        assert(derefs(children@) =~= start + field_types(fields@.take(0)));
    }
    while i < fields.len()
        invariant
            i <= fields@.len(),
            derefs(children@) == start + field_types(fields@.take(i as int)),
        decreases fields@.len() - i,
    {
        let ghost before = derefs(children@);
        match &fields[i].ty {
            Some(t) => push_one(t, children),
            None => {},
        }
        proof {
            assert(fields@.take(i + 1).drop_last() =~= fields@.take(i as int));
            assert(fields@.take(i + 1).last() == fields@[i as int]);
            assert(field_types(fields@.take(i + 1)) == field_types(fields@.take(i as int)) + match fields@[i as int].ty {
                Some(t) => seq![t],
                None => Seq::<ExprSyntax>::empty(),
            });
            assert(fields@.take(i + 1).drop_last() =~= fields@.take(i as int));
            assert(derefs(children@) =~= start + field_types(fields@.take(i + 1)));
        }
        i += 1;
    }
    proof {
        assert(fields@.take(i as int) =~= fields@);
    }
}

fn push_all<'a>(expressions: &'a Vec<ExprSyntax>, children: &mut Vec<&'a ExprSyntax>)
    ensures
        derefs(final(children)@) == derefs(old(children)@) + expressions@,
{
    let ghost start = derefs(children@);
    let mut i: usize = 0;
    while i < expressions.len()
        invariant
            i <= expressions@.len(),
            derefs(children@) == start + expressions@.take(i as int),
        decreases expressions@.len() - i,
    {
        push_one(&expressions[i], children);
        proof {
            assert(expressions@.take(i + 1) =~= expressions@.take(i as int) + seq![expressions@[i as int]]);
            assert(derefs(children@) =~= start + expressions@.take(i + 1));
        }
        i += 1;
    }
    proof {
        assert(expressions@.take(i as int) =~= expressions@);
    }
}

fn push_optional<'a>(expression: &'a Option<Box<ExprSyntax>>, children: &mut Vec<&'a ExprSyntax>)
    ensures
        derefs(final(children)@) == derefs(old(children)@) + optional_child(*expression),
{
    match expression {
        Some(e) => push_one(&**e, children),
        None => {},
    }
    assert(derefs(children@) =~= derefs(old(children)@) + optional_child(*expression));
}

/// Appends the direct sub-expressions of `expression`, in source order.
pub fn collect_children<'a>(expression: &'a ExprSyntax, children: &mut Vec<&'a ExprSyntax>)
    ensures
        derefs(final(children)@) == derefs(old(children)@) + children_of(*expression),
{
    let ghost start = derefs(children@);
    match &expression.kind {
        ExprSyntaxKind::Paren(inner) => push_one(&**inner, children),
        ExprSyntaxKind::Unary { expression: inner, .. } => push_one(&**inner, children),
        ExprSyntaxKind::Binary { left, right, .. } => {
            push_one(&**left, children);
            push_one(&**right, children);
        },
        ExprSyntaxKind::MapType { key, value } => {
            push_one(&**key, children);
            push_one(&**value, children);
        },
        ExprSyntaxKind::KeyValue { key, value } => {
            push_one(&**key, children);
            push_one(&**value, children);
        },
        ExprSyntaxKind::Call { callee, arguments, .. } => {
            push_one(&**callee, children);
            push_all(arguments, children);
        },
        ExprSyntaxKind::FunctionLiteral { params, results, .. } => {
            let r = match results {
                Some(r) => Some(r),
                None => None,
            };
            collect_field_children(params, children, r);
        },
        ExprSyntaxKind::FunctionType { params, results } => {
            let r = match results {
                Some(r) => Some(r),
                None => None,
            };
            collect_field_children(params, children, r);
        },
        ExprSyntaxKind::Selector { base, .. } => push_one(&**base, children),
        ExprSyntaxKind::TypeAssert { value, asserted } => {
            push_one(&**value, children);
            push_optional(asserted, children);
        },
        ExprSyntaxKind::ArrayType { length, element } => {
            push_optional(length, children);
            push_one(&**element, children);
        },
        ExprSyntaxKind::ChannelType { element, .. } => push_one(&**element, children),
        ExprSyntaxKind::StructType { fields } => collect_field_children(fields, children, None),
        ExprSyntaxKind::InterfaceType { methods } => collect_field_children(methods, children, None),
        ExprSyntaxKind::CompositeLiteral { ty, elements } => {
            push_optional(ty, children);
            push_all(elements, children);
        },
        ExprSyntaxKind::Index { base, index } => {
            push_one(&**base, children);
            push_one(&**index, children);
        },
        ExprSyntaxKind::IndexList { base, indices } => {
            push_one(&**base, children);
            push_all(indices, children);
        },
        ExprSyntaxKind::Slice { base, low, high, max } => {
            push_one(&**base, children);
            push_optional(low, children);
            push_optional(high, children);
            push_optional(max, children);
        },
        _ => {},
    }
    proof {
        assert(derefs(children@) =~= start + children_of(*expression));
    }
}

/// The parameter in slot `k` is named somewhere in the expression.
pub open spec fn referenced_in(e: ExprSyntax, params: Seq<Option<Seq<char>>>, k: int) -> bool {
    any_sub(e, |x: ExprSyntax| names_slot(x, params, k))
}

/// The slots held in a set of slot numbers.
pub open spec fn slot_set(v: Seq<usize>) -> Set<int> {
    Set::new(|k: int| exists|i: int| 0 <= i < v.len() && v[i] == k)
}

fn insert_slot(referenced: &mut Vec<usize>, k: usize)
    requires
        old(referenced)@.no_duplicates(),
    ensures
        final(referenced)@.no_duplicates(),
        slot_set(final(referenced)@) == slot_set(old(referenced)@).insert(k as int),
{
    if contains_slot(referenced, k) {
        proof {
            assert(slot_set(referenced@) =~= slot_set(old(referenced)@).insert(k as int));
        }
        return;
    }
    referenced.push(k);
    proof {
        assert(referenced@[referenced@.len() - 1] == k);
        assert forall|x: int| slot_set(referenced@).contains(x) <==> slot_set(old(referenced)@).insert(k as int).contains(x) by {
            if slot_set(old(referenced)@).contains(x) {
                let i = choose|i: int| 0 <= i < old(referenced)@.len() && old(referenced)@[i] == x;
                assert(referenced@[i] == x);
            }
            if slot_set(referenced@).contains(x) && x != k {
                let i = choose|i: int| 0 <= i < referenced@.len() && referenced@[i] == x;
                assert(old(referenced)@[i] == x);
            }
        }
        assert(slot_set(referenced@) =~= slot_set(old(referenced)@).insert(k as int));
    }
}

fn contains_slot(v: &Vec<usize>, k: usize) -> (r: bool)
    ensures
        r == v@.contains(k),
{
    let mut i: usize = 0;
    while i < v.len()
        invariant
            i <= v@.len(),
            forall|j: int| 0 <= j < i ==> v@[j] != k,
        decreases v@.len() - i,
    {
        if v[i] == k {
            return true;
        }
        i += 1;
    }
    false
}

/// The slots referenced in `e`, added to a set of slots.
pub open spec fn with_referenced(old: Set<int>, e: ExprSyntax, params: Seq<Option<Seq<char>>>) -> Set<int> {
    old.union(Set::new(|k: int| referenced_in(e, params, k)))
}

/// Adds the parameter slots that an expression names anywhere inside it.
pub fn collect_referenced_parameters(expression: &ExprSyntax, parameters: &[Option<String>], referenced: &mut Vec<usize>)
    requires
        old(referenced)@.no_duplicates(),
    ensures
        final(referenced)@.no_duplicates(),
        slot_set(final(referenced)@) == with_referenced(slot_set(old(referenced)@), *expression, slot_views(parameters@)),
    decreases *expression,
{
    let ghost params = slot_views(parameters@);
    let ghost start = slot_set(referenced@);
    if let ExprSyntaxKind::Ident(ident) = &expression.kind {
        let mut i: usize = 0;
        while i < parameters.len()
            invariant
                i <= parameters@.len(),
                params == slot_views(parameters@),
                expression.kind == ExprSyntaxKind::Ident(*ident),
                referenced@.no_duplicates(),
                slot_set(referenced@) == start.union(Set::new(|k: int| 0 <= k < i && params[k] == Some(ident.name@))),
            decreases parameters@.len() - i,
        {
            let hit = match &parameters[i] {
                Some(p) => *p == ident.name,
                None => false,
            };
            if hit {
                insert_slot(referenced, i);
            }
            proof {
                assert(params[i as int] == match parameters@[i as int] {
                    Some(s) => Some(s@),
                    None => None,
                });
                assert(slot_set(referenced@) =~= start.union(Set::new(|k: int| 0 <= k < i + 1 && params[k] == Some(ident.name@))));
            }
            i += 1;
        }
        proof {
            assert(slot_set(referenced@) =~= with_referenced(start, *expression, params));
        }
        return;
    }
    let mut nested: Vec<&ExprSyntax> = Vec::new();
    collect_children(expression, &mut nested);
    let ghost kids = children_of(*expression);
    proof {
        assert(derefs(nested@) =~= kids);
    }
    let mut i: usize = 0;
    while i < nested.len()
        invariant
            i <= nested@.len(),
            params == slot_views(parameters@),
            kids == children_of(*expression),
            derefs(nested@) == kids,
            referenced@.no_duplicates(),
            slot_set(referenced@) == start.union(
                Set::new(|k: int| any_sub_seq(kids.take(i as int), |x: ExprSyntax| names_slot(x, params, k))),
            ),
        decreases nested@.len() - i,
    {
        let child = nested[i];
        proof {
            assert(*child == derefs(nested@)[i as int]);
            lemma_child_decreases(*expression, i as int);
        }
        collect_referenced_parameters(child, parameters, referenced);
        proof {
            assert(kids.take(i + 1).drop_last() =~= kids.take(i as int));
            assert(kids.take(i + 1).last() == *child);
            assert(slot_set(referenced@) =~= start.union(
                Set::new(|k: int| any_sub_seq(kids.take(i + 1), |x: ExprSyntax| names_slot(x, params, k))),
            ));
        }
        i += 1;
    }
    proof {
        assert(kids.take(i as int) =~= kids);
        assert forall|k: int| #![all_triggers]
            any_sub_seq(kids, |x: ExprSyntax| names_slot(x, params, k)) == referenced_in(*expression, params, k) by {
            lemma_any_sub_children(*expression, |x: ExprSyntax| names_slot(x, params, k));
        }
        assert(slot_set(referenced@) =~= with_referenced(start, *expression, params));
    }
}

/// A generic type declaration: its identity, its type parameter list and
/// the type it declares.
pub struct GenericTypeSymbol {
    pub id: u64,
    pub type_parameters: FieldListSyntax,
    pub underlying: ExprSyntax,
    pub alias: bool,
}

/// The generic type declarations in scope, by name.
pub struct GenericTypeTable {
    pub entries: Vec<(String, GenericTypeSymbol)>,
}

impl GenericTypeTable {
    /// Each name and each identity belongs to one declaration.
    pub open spec fn wf(&self) -> bool {
        forall|i: int, j: int|
            0 <= i < self.entries@.len() && 0 <= j < self.entries@.len() && i != j ==> (#[trigger] self.entries@[i]).0@
                != (#[trigger] self.entries@[j]).0@ && self.entries@[i].1.id != self.entries@[j].1.id
    }
}

/// The position of the declaration named `name`.
pub open spec fn generic_named(entries: Seq<(String, GenericTypeSymbol)>, name: Seq<char>) -> Option<int> {
    if exists|i: int| 0 <= i < entries.len() && (#[trigger] entries[i]).0@ == name {
        Some(choose|i: int| 0 <= i < entries.len() && (#[trigger] entries[i]).0@ == name)
    } else {
        None
    }
}

/// The position of the declaration whose identity is `id`.
pub open spec fn generic_with_id(entries: Seq<(String, GenericTypeSymbol)>, id: u64) -> Option<int> {
    if exists|i: int| 0 <= i < entries.len() && (#[trigger] entries[i]).1.id == id {
        Some(choose|i: int| 0 <= i < entries.len() && (#[trigger] entries[i]).1.id == id)
    } else {
        None
    }
}

fn find_generic_named(table: &GenericTypeTable, name: &String) -> (r: Option<usize>)
    requires
        table.wf(),
    ensures
        match r {
            Some(i) => generic_named(table.entries@, name@) == Some(i as int),
            None => generic_named(table.entries@, name@) is None,
        },
{
    let mut i: usize = 0;
    while i < table.entries.len()
        invariant
            i <= table.entries@.len(),
            table.wf(),
            forall|k: int| 0 <= k < i ==> (#[trigger] table.entries@[k]).0@ != name@,
        decreases table.entries@.len() - i,
    {
        if table.entries[i].0 == *name {
            proof {
                let c = choose|k: int| 0 <= k < table.entries@.len() && (#[trigger] table.entries@[k]).0@ == name@;
                assert(c == i);
            }
            return Some(i);
        }
        i += 1;
    }
    None
}

fn find_generic_with_id(table: &GenericTypeTable, id: u64) -> (r: Option<usize>)
    requires
        table.wf(),
    ensures
        match r {
            Some(i) => generic_with_id(table.entries@, id) == Some(i as int),
            None => generic_with_id(table.entries@, id) is None,
        },
{
    let mut i: usize = 0;
    while i < table.entries.len()
        invariant
            i <= table.entries@.len(),
            table.wf(),
            forall|k: int| 0 <= k < i ==> (#[trigger] table.entries@[k]).1.id != id,
        decreases table.entries@.len() - i,
    {
        if table.entries[i].1.id == id {
            proof {
                let c = choose|k: int| 0 <= k < table.entries@.len() && (#[trigger] table.entries@[k]).1.id == id;
                assert(c == i);
            }
            return Some(i);
        }
        i += 1;
    }
    None
}

/// `e` is a flow recorded for an instantiation, inside the declaration
/// `owner` with parameter slots `params`, of the generic type that `base`
/// names, with `args` as type arguments: the slot `e.source.parameter` is
/// named in argument `e.destination.parameter`, and the flow is derived
/// unless that argument is the bare parameter.
pub open spec fn call_edge(
    entries: Seq<(String, GenericTypeSymbol)>,
    owner: u64,
    params: Seq<Option<Seq<char>>>,
    base: ExprSyntax,
    args: Seq<ExprSyntax>,
    e: Edge,
) -> bool {
    match base.kind {
        ExprSyntaxKind::Ident(id) => match generic_named(entries, id.name@) {
            Some(c) => {
                &&& e.source.definition == owner
                &&& e.destination.definition == entries[c].1.id
                &&& e.destination.parameter < args.len()
                &&& referenced_in(args[e.destination.parameter as int], params, e.source.parameter as int)
                &&& e.derived == (spec_bare_parameter(args[e.destination.parameter as int], params) != Some(
                    e.source.parameter as int,
                ))
            },
            None => false,
        },
        _ => false,
    }
}

/// `e` is a flow recorded for the expression `x` if it instantiates a
/// generic type with `G[A]` or `G[A, B, ...]`.
pub open spec fn site_edge(
    entries: Seq<(String, GenericTypeSymbol)>,
    owner: u64,
    params: Seq<Option<Seq<char>>>,
    x: ExprSyntax,
    e: Edge,
) -> bool {
    match x.kind {
        ExprSyntaxKind::Index { base, index } => call_edge(entries, owner, params, *base, seq![*index], e),
        ExprSyntaxKind::IndexList { base, indices } => call_edge(entries, owner, params, *base, indices@, e),
        _ => false,
    }
}

/// Records the flows of an instantiation of the generic type that `base`
/// names; nothing when `base` names none.
pub fn record_instantiation(
    owner: &GenericTypeSymbol,
    parameters: &[Option<String>],
    base: &ExprSyntax,
    arguments: &[&ExprSyntax],
    generic_types: &GenericTypeTable,
    edges: &mut Vec<Edge>,
)
    requires
        generic_types.wf(),
    ensures
        forall|e: Edge|
            #[trigger] final(edges)@.contains(e) <==> (old(edges)@.contains(e) || call_edge(
                generic_types.entries@,
                owner.id,
                slot_views(parameters@),
                *base,
                derefs(arguments@),
                e,
            )),
{
    let ghost params = slot_views(parameters@);
    let ghost args = derefs(arguments@);
    let ghost entries = generic_types.entries@;
    let ident = match &base.kind {
        ExprSyntaxKind::Ident(ident) => ident,
        _ => {
            return;
        },
    };
    let callee = match find_generic_named(generic_types, &ident.name) {
        Some(c) => c,
        None => {
            return;
        },
    };
    let callee_id = generic_types.entries[callee].1.id;
    let mut destination: usize = 0;
    while destination < arguments.len()
        invariant
            destination <= arguments@.len(),
            params == slot_views(parameters@),
            args == derefs(arguments@),
            entries == generic_types.entries@,
            base.kind == ExprSyntaxKind::Ident(*ident),
            generic_named(entries, ident.name@) == Some(callee as int),
            callee < entries.len(),
            callee_id == entries[callee as int].1.id,
            forall|e: Edge|
                #[trigger] edges@.contains(e) <==> (old(edges)@.contains(e) || (call_edge(
                    entries,
                    owner.id,
                    params,
                    *base,
                    args,
                    e,
                ) && e.destination.parameter < destination)),
        decreases arguments@.len() - destination,
    {
        let argument = arguments[destination];
        let mut referenced: Vec<usize> = Vec::new();
        collect_referenced_parameters(argument, parameters, &mut referenced);
        let bare = bare_parameter(argument, parameters);
        proof {
            assert(*argument == args[destination as int]);
            assert(slot_set(referenced@) =~= Set::new(|k: int| referenced_in(*argument, params, k)));
        }
        let ghost before = edges@;
        let mut j: usize = 0;
        while j < referenced.len()
            invariant
                j <= referenced@.len(),
                destination < arguments@.len(),
                params == slot_views(parameters@),
                args == derefs(arguments@),
                entries == generic_types.entries@,
                base.kind == ExprSyntaxKind::Ident(*ident),
                generic_named(entries, ident.name@) == Some(callee as int),
                callee < entries.len(),
                callee_id == entries[callee as int].1.id,
                *argument == args[destination as int],
                slot_set(referenced@) == Set::new(|k: int| referenced_in(*argument, params, k)),
                match bare {
                    Some(b) => spec_bare_parameter(*argument, params) == Some(b as int),
                    None => spec_bare_parameter(*argument, params) is None,
                },
                forall|e: Edge|
                    #[trigger] edges@.contains(e) <==> (before.contains(e) || (call_edge(
                        entries,
                        owner.id,
                        params,
                        *base,
                        args,
                        e,
                    ) && e.destination.parameter == destination && referenced@.take(j as int).contains(
                        e.source.parameter,
                    ))),
            decreases referenced@.len() - j,
        {
            let source = referenced[j];
            let derived = match bare {
                Some(b) => b != source,
                None => true,
            };
            let edge = Edge {
                source: Vertex { definition: owner.id, parameter: source },
                destination: Vertex { definition: callee_id, parameter: destination },
                derived,
            };
            edges.push(edge);
            proof {
                assert(slot_set(referenced@).contains(source as int));
                assert(referenced@.take(j + 1) =~= referenced@.take(j as int).push(source));
                assert(call_edge(entries, owner.id, params, *base, args, edge));
                assert forall|e: Edge| #[trigger] edges@.contains(e) <==> (before.contains(e) || (call_edge(
                    entries,
                    owner.id,
                    params,
                    *base,
                    args,
                    e,
                ) && e.destination.parameter == destination && referenced@.take(j + 1).contains(
                    e.source.parameter,
                ))) by {}
            }
            j += 1;
        }
        proof {
            assert(referenced@.take(j as int) =~= referenced@);
            assert forall|e: Edge| #[trigger] edges@.contains(e) <==> (old(edges)@.contains(e) || (call_edge(
                entries,
                owner.id,
                params,
                *base,
                args,
                e,
            ) && e.destination.parameter < destination + 1)) by {
                if call_edge(entries, owner.id, params, *base, args, e) && e.destination.parameter == destination {
                    assert(slot_set(referenced@).contains(e.source.parameter as int) <==> referenced@.contains(
                        e.source.parameter,
                    ));
                }
            }
        }
        destination += 1;
    }
}

/// `e` is recorded for some instantiation inside `x`.
pub open spec fn edge_within(
    entries: Seq<(String, GenericTypeSymbol)>,
    owner: u64,
    params: Seq<Option<Seq<char>>>,
    x: ExprSyntax,
    e: Edge,
) -> bool {
    any_sub(x, |y: ExprSyntax| site_edge(entries, owner, params, y, e))
}

/// `e` is recorded for some instantiation inside one of the expressions.
pub open spec fn edge_within_seq(
    entries: Seq<(String, GenericTypeSymbol)>,
    owner: u64,
    params: Seq<Option<Seq<char>>>,
    s: Seq<ExprSyntax>,
    e: Edge,
) -> bool {
    any_sub_seq(s, |y: ExprSyntax| site_edge(entries, owner, params, y, e))
}

/// `e` is recorded for some instantiation inside the types of the fields.
pub open spec fn edge_within_fields(
    entries: Seq<(String, GenericTypeSymbol)>,
    owner: u64,
    params: Seq<Option<Seq<char>>>,
    s: Seq<FieldSyntax>,
    e: Edge,
) -> bool {
    any_sub_fields(s, |y: ExprSyntax| site_edge(entries, owner, params, y, e))
}

/// Records the flows of every instantiation inside `expression`.
pub fn collect_expression_instantiations(
    owner: &GenericTypeSymbol,
    parameters: &[Option<String>],
    expression: &ExprSyntax,
    generic_types: &GenericTypeTable,
    edges: &mut Vec<Edge>,
)
    requires
        generic_types.wf(),
    ensures
        forall|e: Edge|
            #[trigger] final(edges)@.contains(e) <==> (old(edges)@.contains(e) || edge_within(
                generic_types.entries@,
                owner.id,
                slot_views(parameters@),
                *expression,
                e,
            )),
    decreases *expression,
{
    let ghost params = slot_views(parameters@);
    let ghost entries = generic_types.entries@;
    match &expression.kind {
        ExprSyntaxKind::Index { base, index } => {
            let mut one: Vec<&ExprSyntax> = Vec::new();
            one.push(&**index);
            proof {
                assert(derefs(one@) =~= seq![**index]);
            }
            record_instantiation(owner, parameters, base, one.as_slice(), generic_types, edges);
        },
        ExprSyntaxKind::IndexList { base, indices } => {
            let mut all: Vec<&ExprSyntax> = Vec::new();
            push_all(indices, &mut all);
            proof {
                assert(derefs(all@) =~= indices@);
            }
            record_instantiation(owner, parameters, base, all.as_slice(), generic_types, edges);
        },
        _ => {},
    }
    let ghost here = edges@;
    proof {
        assert forall|e: Edge| #[trigger] here.contains(e) <==> (old(edges)@.contains(e) || site_edge(
            entries,
            owner.id,
            params,
            *expression,
            e,
        )) by {}
    }
    let mut nested: Vec<&ExprSyntax> = Vec::new();
    collect_children(expression, &mut nested);
    let ghost kids = children_of(*expression);
    proof {
        assert(derefs(nested@) =~= kids);
        assert forall|e: Edge| #[trigger] edges@.contains(e) <==> (here.contains(e) || edge_within_seq(
            entries,
            owner.id,
            params,
            kids.take(0),
            e,
        )) by {}
    }
    let mut i: usize = 0;
    while i < nested.len()
        invariant
            i <= nested@.len(),
            generic_types.wf(),
            params == slot_views(parameters@),
            entries == generic_types.entries@,
            kids == children_of(*expression),
            derefs(nested@) == kids,
            forall|e: Edge|
                #[trigger] edges@.contains(e) <==> (here.contains(e) || edge_within_seq(
                    entries,
                    owner.id,
                    params,
                    kids.take(i as int),
                    e,
                )),
        decreases nested@.len() - i,
    {
        let child = nested[i];
        proof {
            assert(*child == derefs(nested@)[i as int]);
            lemma_child_decreases(*expression, i as int);
        }
        collect_expression_instantiations(owner, parameters, child, generic_types, edges);
        proof {
            assert(kids.take(i + 1).drop_last() =~= kids.take(i as int));
            assert(kids.take(i + 1).last() == *child);
        }
        i += 1;
    }
    proof {
        assert(kids.take(i as int) =~= kids);
        assert forall|e: Edge| #[trigger] edges@.contains(e) <==> (old(edges)@.contains(e) || edge_within(
            entries,
            owner.id,
            params,
            *expression,
            e,
        )) by {
            lemma_any_sub_children(*expression, |y: ExprSyntax| site_edge(entries, owner.id, params, y, e));
        }
    }
}

/// Records the flows of every instantiation inside the types of a field
/// list.
pub fn collect_field_instantiations(
    owner: &GenericTypeSymbol,
    parameters: &[Option<String>],
    fields: &FieldListSyntax,
    generic_types: &GenericTypeTable,
    edges: &mut Vec<Edge>,
)
    requires
        generic_types.wf(),
    ensures
        forall|e: Edge|
            #[trigger] final(edges)@.contains(e) <==> (old(edges)@.contains(e) || edge_within_fields(
                generic_types.entries@,
                owner.id,
                slot_views(parameters@),
                fields.fields@,
                e,
            )),
{
    let ghost params = slot_views(parameters@);
    let ghost entries = generic_types.entries@;
    let ghost all = fields.fields@;
    let mut i: usize = 0;
    while i < fields.fields.len()
        invariant
            i <= all.len(),
            all == fields.fields@,
            generic_types.wf(),
            params == slot_views(parameters@),
            entries == generic_types.entries@,
            forall|e: Edge|
                #[trigger] edges@.contains(e) <==> (old(edges)@.contains(e) || edge_within_fields(
                    entries,
                    owner.id,
                    params,
                    all.take(i as int),
                    e,
                )),
        decreases all.len() - i,
    {
        if let Some(t) = &fields.fields[i].ty {
            collect_expression_instantiations(owner, parameters, t, generic_types, edges);
        }
        proof {
            assert(all.take(i + 1).drop_last() =~= all.take(i as int));
            assert(all.take(i + 1).last() == all[i as int]);
        }
        i += 1;
    }
    proof {
        assert(all.take(i as int) =~= all);
    }
}

/// `e` is recorded for an instantiation inside the declaration `g`: in its
/// type parameter list or in the type it declares.
pub open spec fn declares_edge(entries: Seq<(String, GenericTypeSymbol)>, g: GenericTypeSymbol, e: Edge) -> bool {
    let params = param_slots(g.type_parameters.fields@);
    edge_within_fields(entries, g.id, params, g.type_parameters.fields@, e) || edge_within(
        entries,
        g.id,
        params,
        g.underlying,
        e,
    )
}

/// `edges` lists exactly the flows that the declarations record.
pub open spec fn lists_instantiation_edges(entries: Seq<(String, GenericTypeSymbol)>, edges: Seq<Edge>) -> bool {
    forall|e: Edge|
        #[trigger] edges.contains(e) <==> exists|i: int| 0 <= i < entries.len() && declares_edge(entries, (#[trigger] entries[i]).1, e)
}

/// The parameter slots of the declaration whose identity is `root`.
pub open spec fn root_vertices(entries: Seq<(String, GenericTypeSymbol)>, root: u64) -> Seq<Vertex> {
    match generic_with_id(entries, root) {
        Some(i) => Seq::new(
            param_slots(entries[i].1.type_parameters.fields@).len(),
            |p: int| Vertex { definition: root, parameter: p as usize },
        ),
        None => Seq::empty(),
    }
}

/// A derived flow that the roots reach lies on a cycle: instantiating the
/// roots would build ever larger types.
pub open spec fn expanding_in(edges: Seq<Edge>, roots: Seq<Vertex>) -> bool {
    exists|i: int|
        0 <= i < edges.len() && (#[trigger] edges[i]).derived && reachable(edges, roots, edges[i].source) && reachable(
            edges,
            seq![edges[i].destination],
            edges[i].source,
        )
}

/// The name under which the diagnostic reports the root.
pub open spec fn root_name(entries: Seq<(String, GenericTypeSymbol)>, root: u64) -> Seq<char> {
    match generic_with_id(entries, root) {
        Some(i) => entries[i].0@,
        None => "generic type"@,
    }
}

/// Reachability depends on which edges there are, not on their order or
/// repetition.
pub proof fn lemma_reachable_same_edges(a: Seq<Edge>, b: Seq<Edge>, roots: Seq<Vertex>, v: Vertex)
    requires
        forall|e: Edge| a.contains(e) <==> b.contains(e),
    ensures
        reachable(a, roots, v) == reachable(b, roots, v),
{
    assert forall|x: Vertex, y: Vertex| step(a, x, y) implies step(b, x, y) by {
        if step(a, x, y) {
            let i = choose|i: int| 0 <= i < a.len() && (#[trigger] a[i]).source == x && a[i].destination == y;
            assert(a.contains(a[i]));
            let j = choose|j: int| 0 <= j < b.len() && b[j] == a[i];
            assert(b[j].source == x);
        }
    }
    assert forall|x: Vertex, y: Vertex| step(b, x, y) implies step(a, x, y) by {
        if step(b, x, y) {
            let i = choose|i: int| 0 <= i < b.len() && (#[trigger] b[i]).source == x && b[i].destination == y;
            assert(b.contains(b[i]));
            let j = choose|j: int| 0 <= j < a.len() && a[j] == b[i];
            assert(a[j].source == x);
        }
    }
    assert forall|p: Seq<Vertex>| is_path(a, p) <==> is_path(b, p) by {
        if is_path(a, p) {
            assert forall|k: int| 0 <= k < p.len() - 1 implies #[trigger] step(b, p[k], p[k + 1]) by {
                assert(step(a, p[k], p[k + 1]));
            }
        }
        if is_path(b, p) {
            assert forall|k: int| 0 <= k < p.len() - 1 implies #[trigger] step(a, p[k], p[k + 1]) by {
                assert(step(b, p[k], p[k + 1]));
            }
        }
    }
    if reachable(a, roots, v) {
        let p = choose|p: Seq<Vertex>| #[trigger] is_path(a, p) && roots.contains(p[0]) && p.last() == v;
        assert(is_path(b, p));
    }
    if reachable(b, roots, v) {
        let p = choose|p: Seq<Vertex>| #[trigger] is_path(b, p) && roots.contains(p[0]) && p.last() == v;
        assert(is_path(a, p));
    }
}

/// Whether instantiation expands depends only on which edges there are.
pub proof fn lemma_expanding_same_edges(a: Seq<Edge>, b: Seq<Edge>, roots: Seq<Vertex>)
    requires
        forall|e: Edge| a.contains(e) <==> b.contains(e),
    ensures
        expanding_in(a, roots) == expanding_in(b, roots),
{
    if expanding_in(a, roots) {
        let i = choose|i: int|
            0 <= i < a.len() && (#[trigger] a[i]).derived && reachable(a, roots, a[i].source) && reachable(
                a,
                seq![a[i].destination],
                a[i].source,
            );
        assert(a.contains(a[i]));
        let j = choose|j: int| 0 <= j < b.len() && b[j] == a[i];
        lemma_reachable_same_edges(a, b, roots, a[i].source);
        lemma_reachable_same_edges(a, b, seq![a[i].destination], a[i].source);
        assert(b[j].derived);
    }
    if expanding_in(b, roots) {
        let i = choose|i: int|
            0 <= i < b.len() && (#[trigger] b[i]).derived && reachable(b, roots, b[i].source) && reachable(
                b,
                seq![b[i].destination],
                b[i].source,
            );
        assert(b.contains(b[i]));
        let j = choose|j: int| 0 <= j < a.len() && a[j] == b[i];
        lemma_reachable_same_edges(a, b, roots, b[i].source);
        lemma_reachable_same_edges(a, b, seq![b[i].destination], b[i].source);
        assert(a[j].derived);
    }
}

/// Refuses a generic type whose instantiation would never end: some
/// derived flow that its parameters reach leads back to its own source.
pub fn ensure_finite_instantiation(root: u64, generic_types: &GenericTypeTable, source: SourceRef) -> (r: Result<
    (),
    Diagnostic,
>)
    requires
        generic_types.wf(),
    ensures
        exists|edges: Seq<Edge>| lists_instantiation_edges(generic_types.entries@, edges),
        forall|edges: Seq<Edge>|
            #[trigger] lists_instantiation_edges(generic_types.entries@, edges) ==> (r is Err <==> expanding_in(
                edges,
                root_vertices(generic_types.entries@, root),
            )),
        r matches Err(d) ==> d.kind == DiagnosticKind::Semantic && d.source == Some(source) && d.message@
            == "expanding recursive generic instantiation involving "@ + root_name(generic_types.entries@, root),
{
    let ghost entries = generic_types.entries@;
    let mut edges: Vec<Edge> = Vec::new();
    let mut i: usize = 0;
    while i < generic_types.entries.len()
        invariant
            i <= entries.len(),
            entries == generic_types.entries@,
            generic_types.wf(),
            forall|e: Edge|
                #[trigger] edges@.contains(e) <==> exists|k: int|
                    0 <= k < i && declares_edge(entries, (#[trigger] entries[k]).1, e),
        decreases entries.len() - i,
    {
        let generic = &generic_types.entries[i].1;
        let parameters = parameter_slots(&generic.type_parameters);
        let ghost before = edges@;
        collect_field_instantiations(generic, parameters.as_slice(), &generic.type_parameters, generic_types, &mut edges);
        collect_expression_instantiations(generic, parameters.as_slice(), &generic.underlying, generic_types, &mut edges);
        proof {
            assert forall|e: Edge| #[trigger] edges@.contains(e) <==> exists|k: int|
                0 <= k < i + 1 && declares_edge(entries, (#[trigger] entries[k]).1, e) by {
                if declares_edge(entries, entries[i as int].1, e) {
                    assert(0 <= i < i + 1);
                }
                if exists|k: int| 0 <= k < i + 1 && declares_edge(entries, (#[trigger] entries[k]).1, e) {
                    let k = choose|k: int| 0 <= k < i + 1 && declares_edge(entries, (#[trigger] entries[k]).1, e);
                    if k < i {
                        assert(before.contains(e));
                    }
                }
            }
        }
        i += 1;
    }
    proof {
        assert(lists_instantiation_edges(entries, edges@));
    }
    let found = find_generic_with_id(generic_types, root);
    let mut roots: Vec<Vertex> = Vec::new();
    match found {
        Some(k) => {
            let count = parameter_slots(&generic_types.entries[k].1.type_parameters).len();
            let mut p: usize = 0;
            while p < count
                invariant
                    p <= count,
                    roots@ == Seq::new(p as nat, |q: int| Vertex { definition: root, parameter: q as usize }),
                decreases count - p,
            {
                roots.push(Vertex { definition: root, parameter: p });
                proof {
                    assert(roots@ =~= Seq::new((p + 1) as nat, |q: int| Vertex { definition: root, parameter: q as usize }));
                }
                p += 1;
            }
            proof {
                assert(roots@ =~= root_vertices(entries, root));
            }
        },
        None => {
            proof {
                assert(roots@ =~= root_vertices(entries, root));
            }
        },
    }
    let reachable_from_roots = reachable_vertices(roots.as_slice(), edges.as_slice());
    let mut expanding = false;
    let mut j: usize = 0;
    while j < edges.len() && !expanding
        invariant
            j <= edges@.len(),
            forall|v: Vertex| reachable_from_roots@.contains(v) <==> reachable(edges@, roots@, v),
            expanding ==> expanding_in(edges@, roots@),
            !expanding ==> forall|m: int|
                0 <= m < j ==> !((#[trigger] edges@[m]).derived && reachable(edges@, roots@, edges@[m].source)
                    && reachable(edges@, seq![edges@[m].destination], edges@[m].source)),
        decreases edges@.len() - j,
    {
        let edge = edges[j];
        if edge.derived && contains_vertex(&reachable_from_roots, edge.source) && path_exists(
            edge.destination,
            edge.source,
            edges.as_slice(),
        ) {
            expanding = true;
        }
        j += 1;
    }
    proof {
        assert(expanding == expanding_in(edges@, roots@));
        assert forall|other: Seq<Edge>| #[trigger] lists_instantiation_edges(entries, other) implies (expanding
            == expanding_in(other, roots@)) by {
            assert forall|e: Edge| edges@.contains(e) <==> other.contains(e) by {}
            lemma_expanding_same_edges(edges@, other, roots@);
        }
    }
    if expanding {
        let mut message = String::from_str("expanding recursive generic instantiation involving ");
        match found {
            Some(k) => message.append(generic_types.entries[k].0.as_str()),
            None => message.append("generic type"),
        }
        return Err(Diagnostic { kind: DiagnosticKind::Semantic, message, source: Some(source) });
    }
    Ok(())
}

} // verus!
