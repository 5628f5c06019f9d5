//! Executable representations of Go channel element types.

use vstd::prelude::*;

use crate::constant::ConstValue;
use crate::conversions::{effects_of, join_argument_effects, lemma_effects_of_one, lemma_effects_of_two};
use crate::expressions::{
    builtin_call, call_args, coerce_expr, coerced_from, coercible, expected_builtin_call, finish_builtin_call,
    spec_is_assignable,
};
use crate::function::FunctionLowerer;
use crate::hir::{
    fails_with, Builtin, Callee, Diagnostic, DiagnosticKind, Effects, Expr, ExprKind, SourceRef, StmtKind,
    ValueCategory,
};
use crate::literals::lemma_int_spelling_roundtrip;
use crate::types::{ChannelDir, IntTy, Ty};

verus! {

/// How a channel's elements are represented at run time.
#[derive(Clone, Copy, Debug, PartialEq, Eq, Structural)]
pub enum ChannelRepresentation {
    I64,
    GoString,
    GoChannelI64,
}

/// The runtime operations on channels of one representation.
#[derive(Clone, Copy, Debug, PartialEq, Eq, Structural)]
pub struct ChannelBuiltins {
    pub nil: Builtin,
    pub make: Builtin,
    pub len: Builtin,
    pub cap: Builtin,
    pub send: Builtin,
    pub receive_value: Builtin,
    pub receive: Builtin,
    pub close: Builtin,
    pub is_nil: Builtin,
    pub try_send: Builtin,
    pub try_receive: Builtin,
}

/// The operations a channel runtime call performs.
#[derive(Clone, Copy, Debug, PartialEq, Eq, Structural)]
pub enum ChannelOperation {
    Nil,
    Make,
    Len,
    Cap,
    /// A send that waits for a receiver or buffer space.
    Send,
    ReceiveValue,
    Receive,
    Close,
    IsNil,
    /// A send that gives up when it would wait, as in a `select` case.
    TrySend,
    TryReceive,
}

/// What a channel runtime call does, read off its name: the channel
/// representation it works on and the operation it performs.
pub open spec fn builtin_channel_operation(b: Builtin) -> Option<(ChannelRepresentation, ChannelOperation)> {
    match b {
        Builtin::ChannelI64Nil => Some((ChannelRepresentation::I64, ChannelOperation::Nil)),
        Builtin::ChannelI64Make => Some((ChannelRepresentation::I64, ChannelOperation::Make)),
        Builtin::ChannelI64Len => Some((ChannelRepresentation::I64, ChannelOperation::Len)),
        Builtin::ChannelI64Cap => Some((ChannelRepresentation::I64, ChannelOperation::Cap)),
        Builtin::ChannelI64Send => Some((ChannelRepresentation::I64, ChannelOperation::Send)),
        Builtin::ChannelI64ReceiveValue => Some((ChannelRepresentation::I64, ChannelOperation::ReceiveValue)),
        Builtin::ChannelI64Receive => Some((ChannelRepresentation::I64, ChannelOperation::Receive)),
        Builtin::ChannelI64Close => Some((ChannelRepresentation::I64, ChannelOperation::Close)),
        Builtin::ChannelI64IsNil => Some((ChannelRepresentation::I64, ChannelOperation::IsNil)),
        Builtin::ChannelI64TrySend => Some((ChannelRepresentation::I64, ChannelOperation::TrySend)),
        Builtin::ChannelI64TryReceive => Some((ChannelRepresentation::I64, ChannelOperation::TryReceive)),
        Builtin::ChannelGoStringNil => Some((ChannelRepresentation::GoString, ChannelOperation::Nil)),
        Builtin::ChannelGoStringMake => Some((ChannelRepresentation::GoString, ChannelOperation::Make)),
        Builtin::ChannelGoStringLen => Some((ChannelRepresentation::GoString, ChannelOperation::Len)),
        Builtin::ChannelGoStringCap => Some((ChannelRepresentation::GoString, ChannelOperation::Cap)),
        Builtin::ChannelGoStringSend => Some((ChannelRepresentation::GoString, ChannelOperation::Send)),
        Builtin::ChannelGoStringReceiveValue => Some((ChannelRepresentation::GoString, ChannelOperation::ReceiveValue)),
        Builtin::ChannelGoStringReceive => Some((ChannelRepresentation::GoString, ChannelOperation::Receive)),
        Builtin::ChannelGoStringClose => Some((ChannelRepresentation::GoString, ChannelOperation::Close)),
        Builtin::ChannelGoStringIsNil => Some((ChannelRepresentation::GoString, ChannelOperation::IsNil)),
        Builtin::ChannelGoStringTrySend => Some((ChannelRepresentation::GoString, ChannelOperation::TrySend)),
        Builtin::ChannelGoStringTryReceive => Some((ChannelRepresentation::GoString, ChannelOperation::TryReceive)),
        Builtin::ChannelGoChannelI64Nil => Some((ChannelRepresentation::GoChannelI64, ChannelOperation::Nil)),
        Builtin::ChannelGoChannelI64Make => Some((ChannelRepresentation::GoChannelI64, ChannelOperation::Make)),
        Builtin::ChannelGoChannelI64Len => Some((ChannelRepresentation::GoChannelI64, ChannelOperation::Len)),
        Builtin::ChannelGoChannelI64Cap => Some((ChannelRepresentation::GoChannelI64, ChannelOperation::Cap)),
        Builtin::ChannelGoChannelI64Send => Some((ChannelRepresentation::GoChannelI64, ChannelOperation::Send)),
        Builtin::ChannelGoChannelI64ReceiveValue => Some((ChannelRepresentation::GoChannelI64, ChannelOperation::ReceiveValue)),
        Builtin::ChannelGoChannelI64Receive => Some((ChannelRepresentation::GoChannelI64, ChannelOperation::Receive)),
        Builtin::ChannelGoChannelI64Close => Some((ChannelRepresentation::GoChannelI64, ChannelOperation::Close)),
        Builtin::ChannelGoChannelI64IsNil => Some((ChannelRepresentation::GoChannelI64, ChannelOperation::IsNil)),
        Builtin::ChannelGoChannelI64TrySend => Some((ChannelRepresentation::GoChannelI64, ChannelOperation::TrySend)),
        Builtin::ChannelGoChannelI64TryReceive => Some((ChannelRepresentation::GoChannelI64, ChannelOperation::TryReceive)),
        _ => None,
    }
}

/// Whether an operation may wait for another goroutine.
pub open spec fn operation_blocks(op: ChannelOperation) -> bool {
    op == ChannelOperation::Send || op == ChannelOperation::Receive || op == ChannelOperation::ReceiveValue
}

/// The runtime calls chosen for a channel representation each perform the
/// operation they are chosen for, on that representation: in particular a
/// send statement calls the blocking send and a `select` send case the
/// non-blocking one, and the two are different calls.
pub proof fn lemma_channel_builtins_perform_their_operations(r: ChannelRepresentation)
    ensures
        builtin_channel_operation(r.spec_builtins().nil) == Some((r, ChannelOperation::Nil)),
        builtin_channel_operation(r.spec_builtins().make) == Some((r, ChannelOperation::Make)),
        builtin_channel_operation(r.spec_builtins().len) == Some((r, ChannelOperation::Len)),
        builtin_channel_operation(r.spec_builtins().cap) == Some((r, ChannelOperation::Cap)),
        builtin_channel_operation(r.spec_builtins().send) == Some((r, ChannelOperation::Send)),
        builtin_channel_operation(r.spec_builtins().receive_value) == Some((r, ChannelOperation::ReceiveValue)),
        builtin_channel_operation(r.spec_builtins().receive) == Some((r, ChannelOperation::Receive)),
        builtin_channel_operation(r.spec_builtins().close) == Some((r, ChannelOperation::Close)),
        builtin_channel_operation(r.spec_builtins().is_nil) == Some((r, ChannelOperation::IsNil)),
        builtin_channel_operation(r.spec_builtins().try_send) == Some((r, ChannelOperation::TrySend)),
        builtin_channel_operation(r.spec_builtins().try_receive) == Some((r, ChannelOperation::TryReceive)),
        builtin_channel_operation(r.spec_builtins().send) matches Some((_, op)) && operation_blocks(op),
        builtin_channel_operation(r.spec_builtins().try_send) matches Some((_, op)) && !operation_blocks(op),
        builtin_channel_operation(r.spec_builtins().try_receive) matches Some((_, op)) && !operation_blocks(op),
        r.spec_builtins().send != r.spec_builtins().try_send,
        r.spec_builtins().receive != r.spec_builtins().try_receive,
{
}

impl ChannelRepresentation {
    pub open spec fn spec_builtins(self) -> ChannelBuiltins {
        match self {
            ChannelRepresentation::I64 => ChannelBuiltins {
                nil: Builtin::ChannelI64Nil,
                make: Builtin::ChannelI64Make,
                len: Builtin::ChannelI64Len,
                cap: Builtin::ChannelI64Cap,
                send: Builtin::ChannelI64Send,
                receive_value: Builtin::ChannelI64ReceiveValue,
                receive: Builtin::ChannelI64Receive,
                close: Builtin::ChannelI64Close,
                is_nil: Builtin::ChannelI64IsNil,
                try_send: Builtin::ChannelI64TrySend,
                try_receive: Builtin::ChannelI64TryReceive,
            },
            ChannelRepresentation::GoString => ChannelBuiltins {
                nil: Builtin::ChannelGoStringNil,
                make: Builtin::ChannelGoStringMake,
                len: Builtin::ChannelGoStringLen,
                cap: Builtin::ChannelGoStringCap,
                send: Builtin::ChannelGoStringSend,
                receive_value: Builtin::ChannelGoStringReceiveValue,
                receive: Builtin::ChannelGoStringReceive,
                close: Builtin::ChannelGoStringClose,
                is_nil: Builtin::ChannelGoStringIsNil,
                try_send: Builtin::ChannelGoStringTrySend,
                try_receive: Builtin::ChannelGoStringTryReceive,
            },
            ChannelRepresentation::GoChannelI64 => ChannelBuiltins {
                nil: Builtin::ChannelGoChannelI64Nil,
                make: Builtin::ChannelGoChannelI64Make,
                len: Builtin::ChannelGoChannelI64Len,
                cap: Builtin::ChannelGoChannelI64Cap,
                send: Builtin::ChannelGoChannelI64Send,
                receive_value: Builtin::ChannelGoChannelI64ReceiveValue,
                receive: Builtin::ChannelGoChannelI64Receive,
                close: Builtin::ChannelGoChannelI64Close,
                is_nil: Builtin::ChannelGoChannelI64IsNil,
                try_send: Builtin::ChannelGoChannelI64TrySend,
                try_receive: Builtin::ChannelGoChannelI64TryReceive,
            },
        }
    }

    /// The runtime operations for channels of this representation.
    pub fn builtins(self) -> (r: ChannelBuiltins)
        ensures
            r == self.spec_builtins(),
    {
        match self {
            ChannelRepresentation::I64 => ChannelBuiltins {
                nil: Builtin::ChannelI64Nil,
                make: Builtin::ChannelI64Make,
                len: Builtin::ChannelI64Len,
                cap: Builtin::ChannelI64Cap,
                send: Builtin::ChannelI64Send,
                receive_value: Builtin::ChannelI64ReceiveValue,
                receive: Builtin::ChannelI64Receive,
                close: Builtin::ChannelI64Close,
                is_nil: Builtin::ChannelI64IsNil,
                try_send: Builtin::ChannelI64TrySend,
                try_receive: Builtin::ChannelI64TryReceive,
            },
            ChannelRepresentation::GoString => ChannelBuiltins {
                nil: Builtin::ChannelGoStringNil,
                make: Builtin::ChannelGoStringMake,
                len: Builtin::ChannelGoStringLen,
                cap: Builtin::ChannelGoStringCap,
                send: Builtin::ChannelGoStringSend,
                receive_value: Builtin::ChannelGoStringReceiveValue,
                receive: Builtin::ChannelGoStringReceive,
                close: Builtin::ChannelGoStringClose,
                is_nil: Builtin::ChannelGoStringIsNil,
                try_send: Builtin::ChannelGoStringTrySend,
                try_receive: Builtin::ChannelGoStringTryReceive,
            },
            ChannelRepresentation::GoChannelI64 => ChannelBuiltins {
                nil: Builtin::ChannelGoChannelI64Nil,
                make: Builtin::ChannelGoChannelI64Make,
                len: Builtin::ChannelGoChannelI64Len,
                cap: Builtin::ChannelGoChannelI64Cap,
                send: Builtin::ChannelGoChannelI64Send,
                receive_value: Builtin::ChannelGoChannelI64ReceiveValue,
                receive: Builtin::ChannelGoChannelI64Receive,
                close: Builtin::ChannelGoChannelI64Close,
                is_nil: Builtin::ChannelGoChannelI64IsNil,
                try_send: Builtin::ChannelGoChannelI64TrySend,
                try_receive: Builtin::ChannelGoChannelI64TryReceive,
            },
        }
    }
}

/// The representation of channels of an element type: `int`, `string`, and
/// channels of `int` are executable.
pub open spec fn spec_channel_representation(element: Ty) -> Option<ChannelRepresentation> {
    match element.spec_underlying() {
        Ty::Int(IntTy::Int) => Some(ChannelRepresentation::I64),
        Ty::String => Some(ChannelRepresentation::GoString),
        Ty::Channel(_, nested) => if nested.spec_underlying() == Ty::Int(IntTy::Int) {
            Some(ChannelRepresentation::GoChannelI64)
        } else {
            None
        },
        _ => None,
    }
}

pub fn channel_representation(element: &Ty) -> (r: Option<ChannelRepresentation>)
    ensures
        r == spec_channel_representation(*element),
{
    match element.underlying() {
        Ty::Int(IntTy::Int) => Some(ChannelRepresentation::I64),
        Ty::String => Some(ChannelRepresentation::GoString),
        Ty::Channel(_, nested) => if matches!(nested.underlying(), Ty::Int(IntTy::Int)) {
            Some(ChannelRepresentation::GoChannelI64)
        } else {
            None
        },
        _ => None,
    }
}

/// The direction, element type and representation of an executable channel
/// type.
pub open spec fn spec_channel_parts(ty: Ty) -> Option<(ChannelDir, Ty, ChannelRepresentation)> {
    match ty.spec_underlying() {
        Ty::Channel(d, element) => match spec_channel_representation(*element) {
            Some(rep) => Some((d, *element, rep)),
            None => None,
        },
        _ => None,
    }
}

pub fn channel_parts(ty: &Ty) -> (r: Option<(ChannelDir, &Ty, ChannelRepresentation)>)
    ensures
        r is Some <==> (ty.spec_underlying() matches Ty::Channel(_, element)
            && spec_channel_representation(*element) is Some),
        r matches Some((d, e, rep)) ==> ty.spec_underlying() == Ty::Channel(d, Box::new(*e))
            && spec_channel_representation(*e) == Some(rep),
        r is None <==> spec_channel_parts(*ty) is None,
        r matches Some((d, e, rep)) ==> spec_channel_parts(*ty) == Some((d, *e, rep)),
{
    let (direction, element) = match ty.underlying() {
        Ty::Channel(direction, element) => (direction, element),
        _ => return None,
    };
    let representation = match channel_representation(element) {
        Some(r) => r,
        None => return None,
    };
    Some((*direction, &**element, representation))
}

/// The effects of a runtime channel operation on its arguments: a call that
/// may allocate, block, panic or write as told, with its arguments'
/// effects.
pub fn channel_effects(arguments: &[&Expr], writes: bool, allocates: bool, blocks: bool, panics: bool) -> (r:
    Effects)
    ensures
        r == effects_of(
            Effects {
                may_call: true,
                may_allocate: allocates,
                may_block: blocks,
                may_panic: panics,
                may_read: false,
                may_write: writes,
            },
            arguments@.map_values(|e: &Expr| *e),
        ),
{
    let base = Effects {
        may_call: true,
        may_allocate: allocates,
        may_block: blocks,
        may_panic: panics,
        may_read: false,
        may_write: writes,
    };
    join_argument_effects(base, arguments)
}

/// The runtime operations of an executable channel type.
pub open spec fn channel_builtins_of(ty: Ty) -> ChannelBuiltins
    recommends
        spec_channel_parts(ty) is Some,
{
    spec_channel_parts(ty).unwrap().2.spec_builtins()
}

/// The element type of an executable channel type.
pub open spec fn channel_element_of(ty: Ty) -> Ty
    recommends
        spec_channel_parts(ty) is Some,
{
    spec_channel_parts(ty).unwrap().1
}

/// The direction of an executable channel type.
pub open spec fn channel_direction_of(ty: Ty) -> ChannelDir
    recommends
        spec_channel_parts(ty) is Some,
{
    spec_channel_parts(ty).unwrap().0
}

/// The effects of a channel operation itself, before those of its operands.
pub open spec fn channel_operation(writes: bool, allocates: bool, blocks: bool, panics: bool) -> Effects {
    Effects {
        may_call: true,
        may_allocate: allocates,
        may_block: blocks,
        may_panic: panics,
        may_read: false,
        may_write: writes,
    }
}

/// The constant `0` of type `int`, the capacity of an unbuffered channel.
fn zero_capacity(node: u64, source: SourceRef) -> (r: Expr)
    ensures
        r.wf(),
        r.ty == Ty::Int(IntTy::Int),
        r.node == node,
        r.source == source,
        r.category == ValueCategory::Constant,
        r.effects == Effects::spec_none(),
        r.spec_constant() matches Some(ConstValue::Int(s)) && s@ == "0"@,
{
    let spelling = String::from_str("0");
    proof {
        reveal_strlit("0");
        lemma_int_spelling_roundtrip(0);
        assert(spelling@ =~= crate::bignum::int_spelling(0));
    }
    Expr {
        node,
        kind: ExprKind::Constant(ConstValue::Int(spelling)),
        ty: Ty::Int(IntTy::Int),
        category: ValueCategory::Constant,
        effects: Effects::none(),
        source,
    }
}

/// The capacity operand of a lowered `make`: the constant `0` when the
/// call gave none, else the given capacity coerced to `int`.
pub open spec fn capacity_operand(c: Expr, given: Seq<Expr>, node: u64, source: SourceRef) -> bool {
    &&& c.wf()
    &&& c.ty == Ty::Int(IntTy::Int)
    &&& given.len() == 0 ==> {
        &&& c.spec_constant() matches Some(ConstValue::Int(s)) && s@ == "0"@
        &&& c.node == node
        &&& c.source == source
        &&& c.effects == Effects::spec_none()
    }
    &&& given.len() == 1 ==> {
        &&& c.node == given[0].node
        &&& c.source == given[0].source
        &&& c.effects == given[0].effects
    }
}

/// The effects of the capacity operand of a lowered `make`.
pub open spec fn capacity_effects(given: Seq<Expr>) -> Effects {
    if given.len() == 0 {
        Effects::spec_none()
    } else {
        given[0].effects
    }
}

/// The type of a receive: the element, or with `comma_ok` the element and
/// a flag.
pub open spec fn received_ty(channel: Ty, comma_ok: bool) -> Ty {
    if comma_ok {
        Ty::Tuple(Box::new(channel_element_of(channel)), Box::new(Ty::Bool))
    } else {
        channel_element_of(channel)
    }
}

/// The type the context expects, as a value.
pub open spec fn expected_ty(expected: Option<&Ty>) -> Option<Ty> {
    match expected {
        Some(t) => Some(*t),
        None => None,
    }
}

impl FunctionLowerer {
    /// Lowers `make(chan T[, capacity])` of a channel type with an executable
    /// representation, given the lowered arguments after the type: none for
    /// an unbuffered channel, or the capacity, which is coerced to `int`.
    pub fn lower_channel_make(
        &self,
        declared: Ty,
        capacity_arguments: Vec<Expr>,
        spread: bool,
        node: u64,
        source: SourceRef,
        expected: Option<&Ty>,
    ) -> (r: Result<Expr, Diagnostic>)
        requires
            forall|i: int| 0 <= i < capacity_arguments@.len() ==> (#[trigger] capacity_arguments@[i]).wf(),
        ensures
            spread ==> fails_with(r, DiagnosticKind::Semantic, "make does not accept ..."@, source),
            !spread && spec_channel_parts(declared) is None ==> fails_with(
                r,
                DiagnosticKind::Unsupported,
                "make does not yet support this channel element representation"@,
                source,
            ),
            !spread && spec_channel_parts(declared) is Some && capacity_arguments@.len() > 1 ==> fails_with(
                r,
                DiagnosticKind::Semantic,
                "make(channel[, capacity]) requires one or two arguments"@,
                source,
            ),
            r is Ok <==> !spread && spec_channel_parts(declared) is Some && capacity_arguments@.len() <= 1 && (
            capacity_arguments@.len() == 1 ==> coercible(capacity_arguments@[0], Ty::Int(IntTy::Int))) && (
            expected matches Some(t) ==> spec_is_assignable(declared, *t)),
            r matches Ok(e) ==> e.wf() && call_args(e).len() == 1 && capacity_operand(
                call_args(e)[0],
                capacity_arguments@,
                node,
                source,
            ) && expected_builtin_call(
                e,
                channel_builtins_of(declared).make,
                call_args(e),
                declared,
                node,
                source,
                channel_operation(false, true, false, true).spec_union(capacity_effects(capacity_arguments@)),
                expected_ty(expected),
            ),
    {
        if spread {
            return Err(Diagnostic::semantic("make does not accept ...", source));
        }
        let representation = match channel_parts(&declared) {
            Some((_, _, representation)) => representation,
            None => {
                return Err(
                    Diagnostic::unsupported(
                        "make does not yet support this channel element representation",
                        source,
                    ),
                );
            },
        };
        if capacity_arguments.len() > 1 {
            return Err(
                Diagnostic::semantic("make(channel[, capacity]) requires one or two arguments", source),
            );
        }
        let ghost given = capacity_arguments@;
        let mut capacity_arguments = capacity_arguments;
        let capacity = match capacity_arguments.pop() {
            None => zero_capacity(node, source),
            Some(capacity) => {
                let mut capacity = capacity;
                coerce_expr(&mut capacity, &Ty::Int(IntTy::Int), source)?;
                capacity
            },
        };
        assert(capacity_operand(capacity, given, node, source));
        let arguments: [&Expr; 1] = [&capacity];
        let effects = channel_effects(&arguments, false, true, false, true);
        proof {
            assert(arguments@.map_values(|e: &Expr| *e) =~= seq![capacity]);
            lemma_effects_of_one(channel_operation(false, true, false, true), capacity);
        }
        let builtin = representation.builtins().make;
        let mut args: Vec<Expr> = Vec::new();
        args.push(capacity);
        assert(args@ =~= seq![capacity]);
        finish_builtin_call(builtin, args, declared, node, source, effects, expected)
    }

    /// Lowers a receive from an already lowered channel: the received value,
    /// coerced to the type the context expects, or with `comma_ok` the value
    /// and whether it came from a send.
    pub fn lower_channel_receive(
        &self,
        channel: Expr,
        comma_ok: bool,
        node: u64,
        source: SourceRef,
        expected: Option<&Ty>,
    ) -> (r: Result<Expr, Diagnostic>)
        requires
            channel.wf(),
        ensures
            spec_channel_parts(channel.ty) is None ==> fails_with(
                r,
                DiagnosticKind::Semantic,
                "receive requires an executable channel element representation"@,
                source,
            ),
            spec_channel_parts(channel.ty) is Some && channel_direction_of(channel.ty) == ChannelDir::Send
                ==> fails_with(r, DiagnosticKind::Semantic, "cannot receive from a send-only channel"@, source),
            r is Ok <==> spec_channel_parts(channel.ty) is Some && channel_direction_of(channel.ty)
                != ChannelDir::Send && (!comma_ok ==> (expected matches Some(t) ==> spec_is_assignable(
                channel_element_of(channel.ty),
                *t,
            ))),
            r matches Ok(e) ==> e.wf() && expected_builtin_call(
                e,
                if comma_ok {
                    channel_builtins_of(channel.ty).receive
                } else {
                    channel_builtins_of(channel.ty).receive_value
                },
                seq![channel],
                received_ty(channel.ty, comma_ok),
                node,
                source,
                channel_operation(true, false, true, false).spec_union(channel.effects),
                if comma_ok {
                    None
                } else {
                    expected_ty(expected)
                },
            ),
    {
        let (direction, element, representation) = match channel_parts(&channel.ty) {
            Some(parts) => parts,
            None => {
                return Err(
                    Diagnostic::semantic("receive requires an executable channel element representation", source),
                );
            },
        };
        if !direction.can_receive() {
            return Err(Diagnostic::semantic("cannot receive from a send-only channel", source));
        }
        let element = element.clone();
        let ty = if comma_ok {
            Ty::Tuple(Box::new(element), Box::new(Ty::Bool))
        } else {
            element
        };
        let arguments: [&Expr; 1] = [&channel];
        let effects = channel_effects(&arguments, true, false, true, false);
        proof {
            assert(arguments@.map_values(|e: &Expr| *e) =~= seq![channel]);
            lemma_effects_of_one(channel_operation(true, false, true, false), channel);
        }
        let builtin = if comma_ok {
            representation.builtins().receive
        } else {
            representation.builtins().receive_value
        };
        let ghost lowered = channel;
        let mut args: Vec<Expr> = Vec::new();
        args.push(channel);
        assert(args@ =~= seq![lowered]);
        finish_builtin_call(builtin, args, ty, node, source, effects, if comma_ok { None } else { expected })
    }

    /// Lowers a send statement `channel <- value` from the lowered channel and
    /// value; the value is coerced to the channel's element type.
    pub fn lower_channel_send(&self, channel: Expr, value: Expr, node: u64, source: SourceRef) -> (r: Result<
        StmtKind,
        Diagnostic,
    >)
        requires
            channel.wf(),
            value.wf(),
        ensures
            spec_channel_parts(channel.ty) is None ==> fails_with(
                r,
                DiagnosticKind::Semantic,
                "send requires an executable channel element representation"@,
                source,
            ),
            spec_channel_parts(channel.ty) is Some && channel_direction_of(channel.ty) == ChannelDir::Receive
                ==> fails_with(r, DiagnosticKind::Semantic, "cannot send to a receive-only channel"@, source),
            r is Ok <==> spec_channel_parts(channel.ty) is Some && channel_direction_of(channel.ty)
                != ChannelDir::Receive && coercible(value, channel_element_of(channel.ty)),
            r matches Ok(StmtKind::Expr(e)) ==> e.wf() && call_args(e).len() == 2 && call_args(e)[0] == channel
                && coerced_from(call_args(e)[1], value, channel_element_of(channel.ty)) && builtin_call(
                e,
                channel_builtins_of(channel.ty).send,
                call_args(e),
                Ty::Unit,
                node,
                source,
                channel_operation(true, false, true, true).spec_union(channel.effects).spec_union(value.effects),
            ),
    {
        let (direction, element, representation) = match channel_parts(&channel.ty) {
            Some(parts) => parts,
            None => {
                return Err(
                    Diagnostic::semantic("send requires an executable channel element representation", source),
                );
            },
        };
        if !direction.can_send() {
            return Err(Diagnostic::semantic("cannot send to a receive-only channel", source));
        }
        let element = element.clone();
        let mut value = value;
        let ghost given = value;
        coerce_expr(&mut value, &element, source)?;
        let arguments: [&Expr; 2] = [&channel, &value];
        let effects = channel_effects(&arguments, true, false, true, true);
        proof {
            assert(arguments@.map_values(|e: &Expr| *e) =~= seq![channel, value]);
            lemma_effects_of_two(channel_operation(true, false, true, true), channel, value);
        }
        let builtin = representation.builtins().send;
        let ghost parts = seq![channel, value];
        let mut args: Vec<Expr> = Vec::new();
        args.push(channel);
        args.push(value);
        assert(args@ =~= parts);
        let call = Expr {
            node,
            kind: ExprKind::Call { callee: Callee::Builtin(builtin), args },
            ty: Ty::Unit,
            category: ValueCategory::Value,
            effects,
            source,
        };
        Ok(StmtKind::Expr(call))
    }

    /// Lowers the send of a `select` case, which does not block: the call
    /// tells whether the value was sent.
    pub fn lower_channel_try_send(&self, channel: Expr, value: Expr, node: u64, source: SourceRef) -> (r: Result<
        Expr,
        Diagnostic,
    >)
        requires
            channel.wf(),
            value.wf(),
        ensures
            spec_channel_parts(channel.ty) is None ==> fails_with(
                r,
                DiagnosticKind::Semantic,
                "select send requires an executable channel element representation"@,
                source,
            ),
            spec_channel_parts(channel.ty) is Some && channel_direction_of(channel.ty) == ChannelDir::Receive
                ==> fails_with(r, DiagnosticKind::Semantic, "cannot send to a receive-only channel"@, source),
            r is Ok <==> spec_channel_parts(channel.ty) is Some && channel_direction_of(channel.ty)
                != ChannelDir::Receive && coercible(value, channel_element_of(channel.ty)),
            r matches Ok(e) ==> e.wf() && call_args(e).len() == 2 && call_args(e)[0] == channel && coerced_from(
                call_args(e)[1],
                value,
                channel_element_of(channel.ty),
            ) && builtin_call(
                e,
                channel_builtins_of(channel.ty).try_send,
                call_args(e),
                Ty::Bool,
                node,
                source,
                channel_operation(true, false, false, true).spec_union(channel.effects).spec_union(value.effects),
            ),
    {
        let (direction, element, representation) = match channel_parts(&channel.ty) {
            Some(parts) => parts,
            None => {
                return Err(
                    Diagnostic::semantic(
                        "select send requires an executable channel element representation",
                        source,
                    ),
                );
            },
        };
        if !direction.can_send() {
            return Err(Diagnostic::semantic("cannot send to a receive-only channel", source));
        }
        let element = element.clone();
        let mut value = value;
        coerce_expr(&mut value, &element, source)?;
        let arguments: [&Expr; 2] = [&channel, &value];
        let effects = channel_effects(&arguments, true, false, false, true);
        proof {
            assert(arguments@.map_values(|e: &Expr| *e) =~= seq![channel, value]);
            lemma_effects_of_two(channel_operation(true, false, false, true), channel, value);
        }
        let builtin = representation.builtins().try_send;
        let ghost parts = seq![channel, value];
        let mut args: Vec<Expr> = Vec::new();
        args.push(channel);
        args.push(value);
        assert(args@ =~= parts);
        Ok(
            Expr {
                node,
                kind: ExprKind::Call { callee: Callee::Builtin(builtin), args },
                ty: Ty::Bool,
                category: ValueCategory::Value,
                effects,
                source,
            },
        )
    }

    /// Lowers the receive of a `select` case, which does not block: the call
    /// gives the value and a status.
    pub fn lower_channel_try_receive(&self, channel: Expr, node: u64, source: SourceRef) -> (r: Result<
        Expr,
        Diagnostic,
    >)
        requires
            channel.wf(),
        ensures
            spec_channel_parts(channel.ty) is None ==> fails_with(
                r,
                DiagnosticKind::Semantic,
                "select receive requires an executable channel element representation"@,
                source,
            ),
            spec_channel_parts(channel.ty) is Some && channel_direction_of(channel.ty) == ChannelDir::Send
                ==> fails_with(r, DiagnosticKind::Semantic, "cannot receive from a send-only channel"@, source),
            r is Ok <==> spec_channel_parts(channel.ty) is Some && channel_direction_of(channel.ty)
                != ChannelDir::Send,
            r matches Ok(e) ==> e.wf() && builtin_call(
                e,
                channel_builtins_of(channel.ty).try_receive,
                seq![channel],
                Ty::Tuple(Box::new(channel_element_of(channel.ty)), Box::new(Ty::Int(IntTy::Int))),
                node,
                source,
                channel_operation(true, false, false, false).spec_union(channel.effects),
            ),
    {
        let (direction, element, representation) = match channel_parts(&channel.ty) {
            Some(parts) => parts,
            None => {
                return Err(
                    Diagnostic::semantic(
                        "select receive requires an executable channel element representation",
                        source,
                    ),
                );
            },
        };
        if !direction.can_receive() {
            return Err(Diagnostic::semantic("cannot receive from a send-only channel", source));
        }
        let ty = Ty::Tuple(Box::new(element.clone()), Box::new(Ty::Int(IntTy::Int)));
        let arguments: [&Expr; 1] = [&channel];
        let effects = channel_effects(&arguments, true, false, false, false);
        proof {
            assert(arguments@.map_values(|e: &Expr| *e) =~= seq![channel]);
            lemma_effects_of_one(channel_operation(true, false, false, false), channel);
        }
        let builtin = representation.builtins().try_receive;
        let ghost lowered = channel;
        let mut args: Vec<Expr> = Vec::new();
        args.push(channel);
        assert(args@ =~= seq![lowered]);
        Ok(
            Expr {
                node,
                kind: ExprKind::Call { callee: Callee::Builtin(builtin), args },
                ty,
                category: ValueCategory::Value,
                effects,
                source,
            },
        )
    }

    /// Lowers `close(channel)` from its lowered arguments.
    pub fn lower_channel_close_builtin_call(
        &self,
        arguments: Vec<Expr>,
        spread: bool,
        node: u64,
        source: SourceRef,
        expected: Option<&Ty>,
    ) -> (r: Result<Expr, Diagnostic>)
        requires
            forall|i: int| 0 <= i < arguments@.len() ==> (#[trigger] arguments@[i]).wf(),
        ensures
            arguments@.len() != 1 ==> fails_with(
                r,
                DiagnosticKind::Semantic,
                "close requires exactly one channel"@,
                source,
            ),
            arguments@.len() == 1 && spread ==> fails_with(
                r,
                DiagnosticKind::Semantic,
                "close does not accept ..."@,
                source,
            ),
            arguments@.len() == 1 && !spread && spec_channel_parts(arguments@[0].ty) is None ==> fails_with(
                r,
                DiagnosticKind::Semantic,
                "close requires an executable channel element representation"@,
                source,
            ),
            arguments@.len() == 1 && !spread && spec_channel_parts(arguments@[0].ty) is Some
                && channel_direction_of(arguments@[0].ty) == ChannelDir::Receive ==> fails_with(
                r,
                DiagnosticKind::Semantic,
                "cannot close a receive-only channel"@,
                source,
            ),
            r is Ok <==> arguments@.len() == 1 && !spread && spec_channel_parts(arguments@[0].ty) is Some
                && channel_direction_of(arguments@[0].ty) != ChannelDir::Receive && (expected matches Some(t)
                ==> spec_is_assignable(Ty::Unit, *t)),
            r matches Ok(e) ==> e.wf() && expected_builtin_call(
                e,
                channel_builtins_of(arguments@[0].ty).close,
                arguments@,
                Ty::Unit,
                node,
                source,
                channel_operation(true, false, false, true).spec_union(arguments@[0].effects),
                expected_ty(expected),
            ),
    {
        if arguments.len() != 1 {
            return Err(Diagnostic::semantic("close requires exactly one channel", source));
        }
        if spread {
            return Err(Diagnostic::semantic("close does not accept ...", source));
        }
        let ghost given = arguments@;
        let mut arguments = arguments;
        let channel = arguments.pop().unwrap();
        assert(channel == given[0]);
        let (direction, representation) = match channel_parts(&channel.ty) {
            Some((direction, _, representation)) => (direction, representation),
            None => {
                return Err(
                    Diagnostic::semantic("close requires an executable channel element representation", source),
                );
            },
        };
        if !direction.can_send() {
            return Err(Diagnostic::semantic("cannot close a receive-only channel", source));
        }
        let operands: [&Expr; 1] = [&channel];
        let effects = channel_effects(&operands, true, false, false, true);
        proof {
            assert(operands@.map_values(|e: &Expr| *e) =~= seq![channel]);
            lemma_effects_of_one(channel_operation(true, false, false, true), channel);
        }
        let builtin = representation.builtins().close;
        let mut args: Vec<Expr> = Vec::new();
        args.push(channel);
        assert(args@ =~= given);
        finish_builtin_call(builtin, args, Ty::Unit, node, source, effects, expected)
    }
}

} // verus!
