//! Lexical resolution of break and continue to exact semantic targets.

use vstd::prelude::*;

use crate::function::FunctionLowerer;
use crate::hir::{Diagnostic, DiagnosticKind, SourceRef};
use crate::syntax::Token;

verus! {

/// The identity of a statement that break or continue can target.
#[derive(Clone, Copy, Debug, PartialEq, Eq, Structural)]
pub struct ControlTargetId(pub u32);

#[derive(Clone, Copy, Debug, PartialEq, Eq, Structural)]
pub enum ControlTargetKind {
    /// A switch or select: only break may target it.
    BreakOnly,
    /// A for loop: break and continue may target it.
    Loop,
}

pub struct ActiveControlTarget {
    pub id: ControlTargetId,
    pub kind: ControlTargetKind,
    pub label: Option<String>,
}

/// An open control target as the contracts see it: its id, its kind and
/// its label.
pub struct TargetView {
    pub id: u32,
    pub kind: ControlTargetKind,
    pub label: Option<Seq<char>>,
}

pub open spec fn target_view(t: ActiveControlTarget) -> TargetView {
    TargetView {
        id: t.id.0,
        kind: t.kind,
        label: match t.label {
            Some(l) => Some(l@),
            None => None,
        },
    }
}

/// The state of the open targets: the targets, innermost last, and the
/// next unused id.
pub struct StackView {
    pub targets: Seq<TargetView>,
    pub next: u32,
}

impl FunctionLowerer {
    pub open spec fn control_view(&self) -> StackView {
        StackView {
            targets: self.control_targets@.map_values(|t: ActiveControlTarget| target_view(t)),
            next: self.next_control_target,
        }
    }

    /// Open targets have increasing ids, all below the next unused id.
    pub open spec fn control_wf(&self) -> bool {
        stack_wf(self.control_view())
    }
}

pub open spec fn stack_wf(s: StackView) -> bool {
    &&& forall|i: int, j: int| 0 <= i < j < s.targets.len() ==> s.targets[i].id < s.targets[j].id
    &&& forall|i: int| 0 <= i < s.targets.len() ==> s.targets[i].id < s.next
}

/// Opening a target: the new target takes the next id, or the id space is
/// exhausted.
pub open spec fn spec_begin(s: StackView, kind: ControlTargetKind, label: Option<Seq<char>>) -> Option<StackView> {
    if s.next == u32::MAX {
        None
    } else {
        Some(
            StackView {
                targets: s.targets.push(TargetView { id: s.next, kind, label }),
                next: (s.next + 1) as u32,
            },
        )
    }
}

/// Closing the innermost target, which must be `expected`; the innermost
/// target is removed even when it is another one.
pub open spec fn spec_end(s: StackView, expected: u32) -> (StackView, bool) {
    if s.targets.len() == 0 {
        (s, false)
    } else {
        (StackView { targets: s.targets.drop_last(), next: s.next }, s.targets.last().id == expected)
    }
}

/// The innermost open target that satisfies a selector: 0 selects any
/// target, 1 a target with the label, 2 a loop.
pub open spec fn innermost(targets: Seq<TargetView>, selector: int, label: Seq<char>) -> Option<int>
    decreases targets.len(),
{
    if targets.len() == 0 {
        None
    } else if selects(targets.last(), selector, label) {
        Some(targets.len() - 1)
    } else {
        innermost(targets.drop_last(), selector, label)
    }
}

pub open spec fn selects(t: TargetView, selector: int, label: Seq<char>) -> bool {
    if selector == 1 {
        t.label == Some(label)
    } else if selector == 2 {
        t.kind == ControlTargetKind::Loop
    } else {
        true
    }
}

/// The id that a branch statement resolves to, or `None` when it targets
/// no enclosing statement (or, for a labelled continue, no loop).
pub open spec fn spec_resolve(targets: Seq<TargetView>, token: Token, label: Option<Seq<char>>) -> Option<u32> {
    match (token, label) {
        (Token::BREAK, Some(l)) => match innermost(targets, 1, l) {
            Some(i) => Some(targets[i].id),
            None => None,
        },
        (Token::BREAK, None) => match innermost(targets, 0, Seq::empty()) {
            Some(i) => Some(targets[i].id),
            None => None,
        },
        (Token::CONTINUE, Some(l)) => match innermost(targets, 1, l) {
            Some(i) => if targets[i].kind == ControlTargetKind::Loop {
                Some(targets[i].id)
            } else {
                None
            },
            None => None,
        },
        (Token::CONTINUE, None) => match innermost(targets, 2, Seq::empty()) {
            Some(i) => Some(targets[i].id),
            None => None,
        },
        _ => None,
    }
}

proof fn lemma_innermost_bounds(targets: Seq<TargetView>, selector: int, label: Seq<char>)
    ensures
        innermost(targets, selector, label) matches Some(i) ==> 0 <= i < targets.len() && selects(
            targets[i],
            selector,
            label,
        ),
    decreases targets.len(),
{
    if targets.len() > 0 && !selects(targets.last(), selector, label) {
        lemma_innermost_bounds(targets.drop_last(), selector, label);
    }
}

/// Whether an optional label is the label `l`.
fn label_is(label: &Option<String>, l: &str) -> (r: bool)
    ensures
        r == (match label {
            Some(s) => s@ == l@,
            None => false,
        }),
{
    match label {
        Some(s) => *s == String::from_str(l),
        None => false,
    }
}

/// `b` is `a` with only its open control targets and next target id
/// changed.
pub open spec fn same_but_control(a: FunctionLowerer, b: FunctionLowerer) -> bool {
    b == (FunctionLowerer {
        control_targets: b.control_targets,
        next_control_target: b.next_control_target,
        ..a
    })
}

impl FunctionLowerer {
    /// Opens a target of the given kind and label and returns its id.
    pub fn begin_control_target(&mut self, kind: ControlTargetKind, label: Option<String>) -> (r: Result<
        ControlTargetId,
        Diagnostic,
    >)
        requires
            old(self).control_wf(),
        ensures
            final(self).control_wf(),
            same_but_control(*old(self), *final(self)),
            old(self).wf() ==> final(self).wf(),
            match spec_begin(
                old(self).control_view(),
                kind,
                match label {
                    Some(l) => Some(l@),
                    None => None,
                },
            ) {
                Some(s) => r == Ok::<ControlTargetId, Diagnostic>(ControlTargetId(old(self).control_view().next))
                    && final(self).control_view() == s,
                None => r matches Err(d) && d.kind == DiagnosticKind::Backend && final(self).control_view()
                    == old(self).control_view(),
            },
    {
        let id = ControlTargetId(self.next_control_target);
        if self.next_control_target == u32::MAX {
            return Err(Diagnostic::backend("function exceeds the control target ID space"));
        }
        self.next_control_target = self.next_control_target + 1;
        let ghost before = self.control_targets@;
        self.control_targets.push(ActiveControlTarget { id, kind, label });
        proof {
            assert(self.control_view().targets =~= old(self).control_view().targets.push(
                target_view(ActiveControlTarget { id, kind, label }),
            ));
        }
        Ok(id)
    }

    /// Closes the innermost target, which must be `expected`.
    pub fn end_control_target(&mut self, expected: ControlTargetId) -> (r: Result<(), Diagnostic>)
        requires
            old(self).control_wf(),
        ensures
            final(self).control_wf(),
            same_but_control(*old(self), *final(self)),
            old(self).wf() ==> final(self).wf(),
            final(self).control_view() == spec_end(old(self).control_view(), expected.0).0,
            r is Ok <==> spec_end(old(self).control_view(), expected.0).1,
            r matches Err(d) ==> d.kind == DiagnosticKind::Backend,
    {
        let target = match self.control_targets.pop() {
            Some(t) => t,
            None => return Err(Diagnostic::backend("semantic control target stack underflow")),
        };
        proof {
            assert(self.control_view().targets =~= old(self).control_view().targets.drop_last());
        }
        if target.id != expected {
            return Err(Diagnostic::backend("semantic control targets were not closed in lexical order"));
        }
        Ok(())
    }

    /// The innermost target, scanning down from `end`, that satisfies the
    /// selector (see `innermost`).
    fn find_innermost(&self, end: usize, selector: u8, label: &str) -> (r: Option<usize>)
        requires
            end <= self.control_targets@.len(),
        ensures
            r matches Some(i) ==> innermost(self.control_view().targets.take(end as int), selector as int, label@) == Some(
                i as int,
            ),
            r is None ==> innermost(self.control_view().targets.take(end as int), selector as int, label@) is None,
        decreases end,
    {
        if end == 0 {
            return None;
        }
        let t = &self.control_targets[end - 1];
        let hit = if selector == 1 {
            label_is(&t.label, label)
        } else if selector == 2 {
            t.kind == ControlTargetKind::Loop
        } else {
            true
        };
        proof {
            let prefix = self.control_view().targets.take(end as int);
            assert(prefix.last() == target_view(*t));
            assert(prefix.drop_last() =~= self.control_view().targets.take(end - 1));
        }
        if hit {
            Some(end - 1)
        } else {
            self.find_innermost(end - 1, selector, label)
        }
    }

    /// Resolves a break or continue, with or without a label, to the id of
    /// its target.
    pub fn resolve_control_target(&self, token: Token, label: Option<&str>, source: SourceRef) -> (r: Result<
        ControlTargetId,
        Diagnostic,
    >)
        ensures
            r is Ok <==> spec_resolve(
                self.control_view().targets,
                token,
                match label {
                    Some(l) => Some(l@),
                    None => None,
                },
            ) is Some,
            r matches Ok(id) ==> spec_resolve(
                self.control_view().targets,
                token,
                match label {
                    Some(l) => Some(l@),
                    None => None,
                },
            ) == Some(id.0),
            r matches Err(d) ==> d.kind == DiagnosticKind::Semantic && d.source == Some(source),
    {
        let n = self.control_targets.len();
        proof {
            assert(self.control_view().targets.take(n as int) =~= self.control_view().targets);
        }
        let (selector, text): (u8, &str) = match (token, label) {
            (Token::BREAK, Some(l)) => (1, l),
            (Token::BREAK, None) => (0, ""),
            (Token::CONTINUE, Some(l)) => (1, l),
            (Token::CONTINUE, None) => (2, ""),
            _ => return Err(Diagnostic::semantic("branch does not target a supported enclosing statement", source)),
        };
        proof {
            reveal_strlit("");
            if selector != 1 {
                assert(text@ =~= Seq::<char>::empty());
            }
            lemma_innermost_bounds(self.control_view().targets, selector as int, text@);
        }
        let found = self.find_innermost(n, selector, text);
        match found {
            Some(i) => {
                let target = &self.control_targets[i];
                proof {
                    assert(innermost(self.control_view().targets, selector as int, text@) == Some(i as int));
                    assert(self.control_view().targets[i as int] == target_view(*target));
                }
                if token == Token::CONTINUE && label.is_some() && target.kind != ControlTargetKind::Loop {
                    return Err(Diagnostic::semantic("continue label does not denote a for loop", source));
                }
                Ok(target.id)
            },
            None => {
                let message = match (token, label) {
                    (Token::BREAK, Some(_)) => "break label does not denote an enclosing for, switch, or select",
                    (Token::BREAK, None) => "break does not target an enclosing for, switch, or select",
                    (Token::CONTINUE, Some(_)) => "continue label does not denote an enclosing statement",
                    _ => "continue does not target an enclosing for loop",
                };
                Err(Diagnostic::semantic(message, source))
            },
        }
    }
}

/// Opening a target and then closing it leaves the stack as it was, but for
/// the id that was used up.
pub proof fn lemma_begin_end_restores(s: StackView, kind: ControlTargetKind, label: Option<Seq<char>>)
    requires
        spec_begin(s, kind, label) is Some,
    ensures
        spec_end(spec_begin(s, kind, label)->0, s.next).1,
        spec_end(spec_begin(s, kind, label)->0, s.next).0.targets == s.targets,
        spec_end(spec_begin(s, kind, label)->0, s.next).0.next == s.next + 1,
{
    let t = spec_begin(s, kind, label)->0;
    assert(t.targets.drop_last() =~= s.targets);
}

/// A target that was just opened is what an unlabelled break resolves to,
/// and, when labelled, what a break with its label resolves to.
pub proof fn lemma_begin_then_break(s: StackView, kind: ControlTargetKind, label: Option<Seq<char>>)
    requires
        spec_begin(s, kind, label) is Some,
    ensures
        spec_resolve(spec_begin(s, kind, label)->0.targets, Token::BREAK, None) == Some(s.next),
        label matches Some(l) ==> spec_resolve(spec_begin(s, kind, label)->0.targets, Token::BREAK, Some(l))
            == Some(s.next),
{
    let t = spec_begin(s, kind, label)->0;
    assert(t.targets.last().id == s.next);
}

/// A loop that was just opened is what an unlabelled continue resolves to.
pub proof fn lemma_begin_loop_then_continue(s: StackView, label: Option<Seq<char>>)
    requires
        spec_begin(s, ControlTargetKind::Loop, label) is Some,
    ensures
        spec_resolve(spec_begin(s, ControlTargetKind::Loop, label)->0.targets, Token::CONTINUE, None) == Some(
            s.next,
        ),
{
}

/// A target nested inside others passes on every branch that it does not
/// select itself: with it open, a continue past a switch or select, or a
/// branch naming another label, resolves as it did before the target was
/// opened; only break and continue resolve at all; and once the target is
/// closed, every branch resolves as before.
pub proof fn lemma_nested_target_resolution(
    s: StackView,
    kind: ControlTargetKind,
    label: Option<Seq<char>>,
    token: Token,
    named: Option<Seq<char>>,
)
    requires
        spec_begin(s, kind, label) is Some,
    ensures
        !(token == Token::BREAK || token == Token::CONTINUE) ==> spec_resolve(
            spec_begin(s, kind, label)->0.targets,
            token,
            named,
        ) is None,
        kind == ControlTargetKind::BreakOnly ==> spec_resolve(
            spec_begin(s, kind, label)->0.targets,
            Token::CONTINUE,
            None,
        ) == spec_resolve(s.targets, Token::CONTINUE, None),
        (named matches Some(l) && label != Some(l)) ==> spec_resolve(
            spec_begin(s, kind, label)->0.targets,
            token,
            named,
        ) == spec_resolve(s.targets, token, named),
        spec_resolve(spec_end(spec_begin(s, kind, label)->0, s.next).0.targets, token, named)
            == spec_resolve(s.targets, token, named),
{
    let t = spec_begin(s, kind, label)->0.targets;
    assert(t.drop_last() =~= s.targets);
    lemma_begin_end_restores(s, kind, label);
    lemma_innermost_bounds(s.targets, 2, Seq::empty());
    match named {
        Some(l) => lemma_innermost_bounds(s.targets, 1, l),
        None => {},
    }
}

/// A break or continue resolves only to an open target.
pub proof fn lemma_resolved_target_is_open(s: StackView, token: Token, label: Option<Seq<char>>)
    requires
        spec_resolve(s.targets, token, label) is Some,
    ensures
        exists|i: int| 0 <= i < s.targets.len() && s.targets[i].id == spec_resolve(s.targets, token, label)->0,
{
    lemma_innermost_bounds(s.targets, 0, Seq::empty());
    lemma_innermost_bounds(s.targets, 2, Seq::empty());
    match label {
        Some(l) => lemma_innermost_bounds(s.targets, 1, l),
        None => {},
    }
}

/// Opening a target keeps the stack well formed: ids stay increasing and
/// below the next unused id.
pub proof fn lemma_begin_keeps_wf(s: StackView, kind: ControlTargetKind, label: Option<Seq<char>>)
    requires
        stack_wf(s),
        spec_begin(s, kind, label) is Some,
    ensures
        stack_wf(spec_begin(s, kind, label)->0),
{
}

} // verus!
