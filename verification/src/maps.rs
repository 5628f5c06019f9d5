//! The concrete map representations and the effects of map operations.

use vstd::prelude::*;

use crate::channels::expected_ty;
use crate::conversions::{effects_of, join_argument_effects, lemma_effects_of_one, lemma_effects_of_two};
use crate::expressions::{
    call_args, coerce_expr, coerced_from, coercible, expected_builtin_call, finish_builtin_call,
    spec_is_assignable,
};
use crate::function::FunctionLowerer;
use crate::hir::{fails_with, Builtin, Diagnostic, DiagnosticKind, Effects, Expr, SourceRef};
use crate::types::{ty_equal, IntTy, Ty};

verus! {

/// `map[string]int`.
pub fn string_i64_map_ty() -> (r: Ty)
    ensures
        r == Ty::MapTy(Box::new(Ty::String), Box::new(Ty::Int(IntTy::Int))),
{
    Ty::MapTy(Box::new(Ty::String), Box::new(Ty::Int(IntTy::Int)))
}

/// `map[int]string`.
pub fn i64_go_string_map_ty() -> (r: Ty)
    ensures
        r == Ty::MapTy(Box::new(Ty::Int(IntTy::Int)), Box::new(Ty::String)),
{
    Ty::MapTy(Box::new(Ty::Int(IntTy::Int)), Box::new(Ty::String))
}

/// The map types that have a runtime representation of their own.
#[derive(Clone, Copy, Debug, PartialEq, Eq, Structural)]
pub enum ConcreteMapRepresentation {
    StringI64,
    I64GoString,
}

impl ConcreteMapRepresentation {
    /// The representation of a map type, by its underlying type.
    pub open spec fn spec_for_ty(ty: Ty) -> Option<ConcreteMapRepresentation> {
        if ty.spec_underlying() == Ty::MapTy(Box::new(Ty::String), Box::new(Ty::Int(IntTy::Int))) {
            Some(ConcreteMapRepresentation::StringI64)
        } else if ty.spec_underlying() == Ty::MapTy(Box::new(Ty::Int(IntTy::Int)), Box::new(Ty::String)) {
            Some(ConcreteMapRepresentation::I64GoString)
        } else {
            None
        }
    }

    pub fn for_ty(ty: &Ty) -> (r: Option<ConcreteMapRepresentation>)
        ensures
            r == Self::spec_for_ty(*ty),
    {
        let string_i64 = string_i64_map_ty();
        let i64_string = i64_go_string_map_ty();
        if ty_equal(ty.underlying(), string_i64.underlying()) {
            Some(ConcreteMapRepresentation::StringI64)
        } else if ty_equal(ty.underlying(), i64_string.underlying()) {
            Some(ConcreteMapRepresentation::I64GoString)
        } else {
            None
        }
    }

    /// The key type of maps of this representation.
    pub open spec fn spec_key_ty(self) -> Ty {
        match self {
            ConcreteMapRepresentation::StringI64 => Ty::String,
            ConcreteMapRepresentation::I64GoString => Ty::Int(IntTy::Int),
        }
    }

    /// The runtime operation that deletes a key.
    pub open spec fn spec_delete(self) -> Builtin {
        match self {
            ConcreteMapRepresentation::StringI64 => Builtin::MapStringI64Delete,
            ConcreteMapRepresentation::I64GoString => Builtin::MapI64GoStringDelete,
        }
    }

    pub fn key_ty(self) -> (r: Ty)
        ensures
            r == self.spec_key_ty(),
    {
        match self {
            ConcreteMapRepresentation::StringI64 => Ty::String,
            ConcreteMapRepresentation::I64GoString => Ty::Int(IntTy::Int),
        }
    }

    pub fn value_ty(self) -> (r: Ty)
        ensures
            r == match self {
                ConcreteMapRepresentation::StringI64 => Ty::Int(IntTy::Int),
                ConcreteMapRepresentation::I64GoString => Ty::String,
            },
    {
        match self {
            ConcreteMapRepresentation::StringI64 => Ty::Int(IntTy::Int),
            ConcreteMapRepresentation::I64GoString => Ty::String,
        }
    }

    pub fn nil(self) -> (r: Builtin)
        ensures
            r == match self {
                ConcreteMapRepresentation::StringI64 => Builtin::MapStringI64Nil,
                ConcreteMapRepresentation::I64GoString => Builtin::MapI64GoStringNil,
            },
    {
        match self {
            ConcreteMapRepresentation::StringI64 => Builtin::MapStringI64Nil,
            ConcreteMapRepresentation::I64GoString => Builtin::MapI64GoStringNil,
        }
    }

    pub fn make(self) -> (r: Builtin)
        ensures
            r == match self {
                ConcreteMapRepresentation::StringI64 => Builtin::MapStringI64Make,
                ConcreteMapRepresentation::I64GoString => Builtin::MapI64GoStringMake,
            },
    {
        match self {
            ConcreteMapRepresentation::StringI64 => Builtin::MapStringI64Make,
            ConcreteMapRepresentation::I64GoString => Builtin::MapI64GoStringMake,
        }
    }

    pub fn get(self) -> (r: Builtin)
        ensures
            r == match self {
                ConcreteMapRepresentation::StringI64 => Builtin::MapStringI64Get,
                ConcreteMapRepresentation::I64GoString => Builtin::MapI64GoStringGet,
            },
    {
        match self {
            ConcreteMapRepresentation::StringI64 => Builtin::MapStringI64Get,
            ConcreteMapRepresentation::I64GoString => Builtin::MapI64GoStringGet,
        }
    }

    pub fn lookup(self) -> (r: Builtin)
        ensures
            r == match self {
                ConcreteMapRepresentation::StringI64 => Builtin::MapStringI64Lookup,
                ConcreteMapRepresentation::I64GoString => Builtin::MapI64GoStringLookup,
            },
    {
        match self {
            ConcreteMapRepresentation::StringI64 => Builtin::MapStringI64Lookup,
            ConcreteMapRepresentation::I64GoString => Builtin::MapI64GoStringLookup,
        }
    }

    pub fn delete(self) -> (r: Builtin)
        ensures
            r == self.spec_delete(),
    {
        match self {
            ConcreteMapRepresentation::StringI64 => Builtin::MapStringI64Delete,
            ConcreteMapRepresentation::I64GoString => Builtin::MapI64GoStringDelete,
        }
    }
}

/// The effects of a runtime operation on its operands.
pub open spec fn operation_effects(reads: bool, writes: bool, allocates: bool, panics: bool) -> Effects {
    Effects {
        may_call: true,
        may_allocate: allocates,
        may_block: false,
        may_panic: panics,
        may_read: reads,
        may_write: writes,
    }
}

/// The effects of a map operation: it calls the runtime and reads the map,
/// and writes, allocates or panics as the operation says, besides the
/// effects of its operands.
pub fn map_effects(arguments: &[&Expr], writes: bool, allocates: bool, panics: bool) -> (r: Effects)
    ensures
        r == effects_of(operation_effects(true, writes, allocates, panics), arguments@.map_values(|e: &Expr| *e)),
{
    let base = Effects {
        may_call: true,
        may_allocate: allocates,
        may_block: false,
        may_panic: panics,
        may_read: true,
        may_write: writes,
    };
    join_argument_effects(base, arguments)
}

/// The runtime operation that `clear` calls on a value of a type: the two
/// concrete map types, and slices of `int` or `string`.
pub open spec fn spec_clear_builtin(ty: Ty) -> Option<Builtin> {
    match ty.spec_underlying() {
        Ty::MapTy(key, element) => if key.spec_underlying() == Ty::String && element.spec_underlying() == Ty::Int(
            IntTy::Int,
        ) {
            Some(Builtin::MapStringI64Clear)
        } else if key.spec_underlying() == Ty::Int(IntTy::Int) && element.spec_underlying() == Ty::String {
            Some(Builtin::MapI64GoStringClear)
        } else {
            None
        },
        Ty::Slice(element) => if element.spec_underlying() == Ty::Int(IntTy::Int) {
            Some(Builtin::SliceI64Clear)
        } else if element.spec_underlying() == Ty::String {
            Some(Builtin::SliceGoStringClear)
        } else {
            None
        },
        _ => None,
    }
}

fn clear_builtin(ty: &Ty) -> (r: Option<Builtin>)
    ensures
        r == spec_clear_builtin(*ty),
{
    match ty.underlying() {
        Ty::MapTy(key, element) => if ty_equal(key.underlying(), &Ty::String) && ty_equal(
            element.underlying(),
            &Ty::Int(IntTy::Int),
        ) {
            Some(Builtin::MapStringI64Clear)
        } else if ty_equal(key.underlying(), &Ty::Int(IntTy::Int)) && ty_equal(element.underlying(), &Ty::String) {
            Some(Builtin::MapI64GoStringClear)
        } else {
            None
        },
        Ty::Slice(element) => if ty_equal(element.underlying(), &Ty::Int(IntTy::Int)) {
            Some(Builtin::SliceI64Clear)
        } else if ty_equal(element.underlying(), &Ty::String) {
            Some(Builtin::SliceGoStringClear)
        } else {
            None
        },
        _ => None,
    }
}

impl FunctionLowerer {
    /// Lowers `clear(value)` from its lowered arguments, for the map and
    /// slice types that have a runtime `clear`.
    pub fn lower_clear_builtin_call(
        &self,
        arguments: Vec<Expr>,
        spread: bool,
        node: u64,
        source: SourceRef,
        expected: Option<&Ty>,
    ) -> (r: Result<Expr, Diagnostic>)
        requires
            forall|i: int| 0 <= i < arguments@.len() ==> (#[trigger] arguments@[i]).wf(),
        ensures
            arguments@.len() != 1 ==> fails_with(
                r,
                DiagnosticKind::Semantic,
                "clear requires exactly one argument"@,
                source,
            ),
            arguments@.len() == 1 && spread ==> fails_with(
                r,
                DiagnosticKind::Semantic,
                "clear does not accept ..."@,
                source,
            ),
            arguments@.len() == 1 && !spread && spec_clear_builtin(arguments@[0].ty) is None ==> fails_with(
                r,
                DiagnosticKind::Unsupported,
                "clear is not yet implemented for this type"@,
                source,
            ),
            r is Ok <==> arguments@.len() == 1 && !spread && spec_clear_builtin(arguments@[0].ty) is Some && (
            expected matches Some(t) ==> spec_is_assignable(Ty::Unit, *t)),
            r matches Ok(e) ==> e.wf() && expected_builtin_call(
                e,
                spec_clear_builtin(arguments@[0].ty)->0,
                arguments@,
                Ty::Unit,
                node,
                source,
                operation_effects(true, true, false, false).spec_union(arguments@[0].effects),
                expected_ty(expected),
            ),
    {
        if arguments.len() != 1 {
            return Err(Diagnostic::semantic("clear requires exactly one argument", source));
        }
        if spread {
            return Err(Diagnostic::semantic("clear does not accept ...", source));
        }
        let ghost given = arguments@;
        let mut arguments = arguments;
        let value = arguments.pop().unwrap();
        assert(value == given[0]);
        let builtin = match clear_builtin(&value.ty) {
            Some(b) => b,
            None => {
                return Err(Diagnostic::unsupported("clear is not yet implemented for this type", source));
            },
        };
        let operands: [&Expr; 1] = [&value];
        let effects = map_effects(&operands, true, false, false);
        proof {
            assert(operands@.map_values(|e: &Expr| *e) =~= seq![value]);
            lemma_effects_of_one(operation_effects(true, true, false, false), value);
        }
        let mut args: Vec<Expr> = Vec::new();
        args.push(value);
        assert(args@ =~= given);
        finish_builtin_call(builtin, args, Ty::Unit, node, source, effects, expected)
    }

    /// Lowers `delete(map, key)` from its lowered arguments; the key is
    /// coerced to the map's key type.
    pub fn lower_delete_builtin_call(
        &self,
        arguments: Vec<Expr>,
        spread: bool,
        node: u64,
        source: SourceRef,
        expected: Option<&Ty>,
    ) -> (r: Result<Expr, Diagnostic>)
        requires
            forall|i: int| 0 <= i < arguments@.len() ==> (#[trigger] arguments@[i]).wf(),
        ensures
            arguments@.len() != 2 ==> fails_with(r, DiagnosticKind::Semantic, "delete requires a map and key"@, source),
            arguments@.len() == 2 && spread ==> fails_with(
                r,
                DiagnosticKind::Semantic,
                "delete does not accept ..."@,
                source,
            ),
            arguments@.len() == 2 && !spread && ConcreteMapRepresentation::spec_for_ty(arguments@[0].ty) is None
                ==> fails_with(
                r,
                DiagnosticKind::Unsupported,
                "delete requires a map with an executable key/value representation"@,
                source,
            ),
            r is Ok <==> arguments@.len() == 2 && !spread && ConcreteMapRepresentation::spec_for_ty(
                arguments@[0].ty,
            ) is Some && coercible(
                arguments@[1],
                ConcreteMapRepresentation::spec_for_ty(arguments@[0].ty)->0.spec_key_ty(),
            ) && (expected matches Some(t) ==> spec_is_assignable(Ty::Unit, *t)),
            r matches Ok(e) ==> e.wf() && call_args(e).len() == 2 && call_args(e)[0] == arguments@[0]
                && coerced_from(
                call_args(e)[1],
                arguments@[1],
                ConcreteMapRepresentation::spec_for_ty(arguments@[0].ty)->0.spec_key_ty(),
            ) && expected_builtin_call(
                e,
                ConcreteMapRepresentation::spec_for_ty(arguments@[0].ty)->0.spec_delete(),
                call_args(e),
                Ty::Unit,
                node,
                source,
                operation_effects(true, true, false, false).spec_union(arguments@[0].effects).spec_union(
                    arguments@[1].effects,
                ),
                expected_ty(expected),
            ),
    {
        if arguments.len() != 2 {
            return Err(Diagnostic::semantic("delete requires a map and key", source));
        }
        if spread {
            return Err(Diagnostic::semantic("delete does not accept ...", source));
        }
        let ghost given = arguments@;
        let mut arguments = arguments;
        let mut key = arguments.pop().unwrap();
        let map = arguments.pop().unwrap();
        assert(map == given[0] && key == given[1]);
        let representation = match ConcreteMapRepresentation::for_ty(&map.ty) {
            Some(r) => r,
            None => {
                return Err(
                    Diagnostic::unsupported(
                        "delete requires a map with an executable key/value representation",
                        source,
                    ),
                );
            },
        };
        coerce_expr(&mut key, &representation.key_ty(), source)?;
        let operands: [&Expr; 2] = [&map, &key];
        let effects = map_effects(&operands, true, false, false);
        proof {
            assert(operands@.map_values(|e: &Expr| *e) =~= seq![map, key]);
            lemma_effects_of_two(operation_effects(true, true, false, false), map, key);
        }
        let ghost parts = seq![map, key];
        let mut args: Vec<Expr> = Vec::new();
        args.push(map);
        args.push(key);
        assert(args@ =~= parts);
        finish_builtin_call(representation.delete(), args, Ty::Unit, node, source, effects, expected)
    }
}

} // verus!
