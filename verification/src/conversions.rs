//! Type predicates for Go conversions, and small helpers of expression
//! lowering.

use vstd::prelude::*;

use crate::bignum::{int_spelling, nat_spelling};
use crate::constant::{int_spelling_value, ConstValue};
use crate::literals::lemma_nat_spelling_digits;
use crate::hir::{Effects, Expr, ExprKind};
use crate::syntax::{ExprSyntax, ExprSyntaxKind};
use crate::types::{IntTy, Ty, UintTy, UntypedTy};

verus! {

/// Whether a name spells a word.
pub(crate) fn name_is(name: &str, word: &str) -> (r: bool)
    ensures
        r == (name@ == word@),
{
    String::from_str(name) == String::from_str(word)
}

/// The predeclared type names that a conversion may use.
pub open spec fn spec_is_predeclared_conversion_name(name: Seq<char>) -> bool {
    ||| name == "bool"@
    ||| name == "string"@
    ||| name == "int"@
    ||| name == "int8"@
    ||| name == "int16"@
    ||| name == "int32"@
    ||| name == "int64"@
    ||| name == "uint"@
    ||| name == "uint8"@
    ||| name == "uint16"@
    ||| name == "uint32"@
    ||| name == "uint64"@
    ||| name == "uintptr"@
    ||| name == "byte"@
    ||| name == "rune"@
    ||| name == "float32"@
    ||| name == "float64"@
    ||| name == "complex64"@
    ||| name == "complex128"@
    ||| name == "any"@
}

pub fn is_predeclared_conversion_name(name: &str) -> (r: bool)
    ensures
        r == spec_is_predeclared_conversion_name(name@),
{
    name_is(name, "bool") || name_is(name, "string") || name_is(name, "int") || name_is(name, "int8")
        || name_is(name, "int16") || name_is(name, "int32") || name_is(name, "int64") || name_is(
        name,
        "uint",
    ) || name_is(name, "uint8") || name_is(name, "uint16") || name_is(name, "uint32") || name_is(
        name,
        "uint64",
    ) || name_is(name, "uintptr") || name_is(name, "byte") || name_is(name, "rune") || name_is(
        name,
        "float32",
    ) || name_is(name, "float64") || name_is(name, "complex64") || name_is(name, "complex128")
        || name_is(name, "any")
}

pub fn is_string_type(ty: &Ty) -> (r: bool)
    ensures
        r == (ty.spec_underlying() == Ty::String),
{
    matches!(ty.underlying(), Ty::String)
}

pub fn is_string_conversion_source(ty: &Ty) -> (r: bool)
    ensures
        r == (ty.spec_underlying() == Ty::String || *ty == Ty::Untyped(UntypedTy::String)),
{
    is_string_type(ty) || matches!(ty, Ty::Untyped(UntypedTy::String))
}

/// A slice of `uint8` elements, after unwrapping defined types.
pub open spec fn spec_is_byte_slice_type(ty: Ty) -> bool {
    match ty.spec_underlying() {
        Ty::Slice(element) => element.spec_underlying() == Ty::Uint(UintTy::Uint8),
        _ => false,
    }
}

pub fn is_byte_slice_type(ty: &Ty) -> (r: bool)
    ensures
        r == spec_is_byte_slice_type(*ty),
{
    match ty.underlying() {
        Ty::Slice(element) => matches!(element.underlying(), Ty::Uint(UintTy::Uint8)),
        _ => false,
    }
}

/// A slice of `int32` (rune) elements, after unwrapping defined types.
pub open spec fn spec_is_rune_slice_type(ty: Ty) -> bool {
    match ty.spec_underlying() {
        Ty::Slice(element) => element.spec_underlying() == Ty::Int(IntTy::Int32),
        _ => false,
    }
}

pub fn is_rune_slice_type(ty: &Ty) -> (r: bool)
    ensures
        r == spec_is_rune_slice_type(*ty),
{
    match ty.underlying() {
        Ty::Slice(element) => matches!(element.underlying(), Ty::Int(IntTy::Int32)),
        _ => false,
    }
}

/// The expression is the identifier `nil`.
pub open spec fn spec_is_nil_identifier(e: ExprSyntax) -> bool {
    match e.kind {
        ExprSyntaxKind::Ident(id) => id.name@ == "nil"@,
        _ => false,
    }
}

pub fn is_nil_identifier(expression: &ExprSyntax) -> (r: bool)
    ensures
        r == spec_is_nil_identifier(*expression),
{
    match &expression.kind {
        ExprSyntaxKind::Ident(identifier) => name_is(identifier.name.as_str(), "nil"),
        _ => false,
    }
}

/// Types that have `nil` among their values.
pub open spec fn spec_is_nilable_type(ty: Ty) -> bool {
    match ty.spec_underlying() {
        Ty::Interface(_) | Ty::Function(_) | Ty::Pointer(_) | Ty::Slice(_) | Ty::MapTy(_, _) | Ty::Channel(
            _,
            _,
        ) => true,
        _ => false,
    }
}

pub fn is_nilable_type(ty: &Ty) -> (r: bool)
    ensures
        r == spec_is_nilable_type(*ty),
{
    matches!(
        ty.underlying(),
        Ty::Interface(_) | Ty::Function(_) | Ty::Pointer(_) | Ty::Slice(_) | Ty::MapTy(_, _) | Ty::Channel(_, _)
    )
}

/// A conversion between two integer types.
pub open spec fn spec_is_integer_conversion(from: Ty, to: Ty) -> bool {
    (from.spec_underlying() is Int || from.spec_underlying() is Uint) && (to.spec_underlying() is Int
        || to.spec_underlying() is Uint)
}

pub fn is_integer_conversion(from: &Ty, to: &Ty) -> (r: bool)
    ensures
        r == spec_is_integer_conversion(*from, *to),
{
    matches!(from.underlying(), Ty::Int(_) | Ty::Uint(_)) && matches!(to.underlying(), Ty::Int(_) | Ty::Uint(_))
}

/// A conversion between two real numeric types, or between two complex
/// types.
pub open spec fn spec_is_numeric_conversion(from: Ty, to: Ty) -> bool {
    let f = from.spec_underlying();
    let t = to.spec_underlying();
    ||| (f is Int || f is Uint || f is Float) && (t is Int || t is Uint || t is Float)
    ||| f is Complex && t is Complex
}

pub fn is_numeric_conversion(from: &Ty, to: &Ty) -> (r: bool)
    ensures
        r == spec_is_numeric_conversion(*from, *to),
{
    let f = from.underlying();
    let t = to.underlying();
    (matches!(f, Ty::Int(_) | Ty::Uint(_) | Ty::Float(_)) && matches!(t, Ty::Int(_) | Ty::Uint(_) | Ty::Float(_)))
        || (matches!(f, Ty::Complex(_)) && matches!(t, Ty::Complex(_)))
}

/// The spellings that `str::parse` of a signed integer accepts: an optional
/// `+` or `-`, then at least one ASCII decimal digit and nothing else.
pub open spec fn std_signed_decimal(s: Seq<char>) -> bool {
    let body = if s.len() > 0 && (s[0] == '+' || s[0] == '-') {
        s.skip(1)
    } else {
        s
    };
    &&& body.len() > 0
    &&& forall|i: int| 0 <= i < body.len() ==> '0' <= #[trigger] body[i] <= '9'
}

/// The decimal spelling of an integer is one that `str::parse` reads.
pub proof fn lemma_int_spelling_std_decimal(v: int)
    ensures
        std_signed_decimal(int_spelling(v)),
{
    let m: nat = if v < 0 { (-v) as nat } else { v as nat };
    lemma_nat_spelling_digits(m);
    let digits = nat_spelling(m);
    if v < 0 {
        assert((seq!['-'] + digits).skip(1) =~= digits);
    } else {
        assert('0' <= digits[0] <= '9');
    }
}

/// `str::parse::<i64>`: a signed decimal spelling whose value fits `i64`.
#[verifier::external_body]
pub(crate) fn parse_i64(text: &str) -> (r: Option<i64>)
    ensures
        r == (if std_signed_decimal(text@) && i64::MIN <= int_spelling_value(text@) <= i64::MAX {
            Some(int_spelling_value(text@) as i64)
        } else {
            None
        }),
{
    text.parse::<i64>().ok()
}

/// The spellings that `str::parse` of an unsigned integer accepts: an
/// optional `+`, then at least one ASCII decimal digit and nothing else.
pub open spec fn std_unsigned_decimal(s: Seq<char>) -> bool {
    let body = if s.len() > 0 && s[0] == '+' {
        s.skip(1)
    } else {
        s
    };
    &&& body.len() > 0
    &&& forall|i: int| 0 <= i < body.len() ==> '0' <= #[trigger] body[i] <= '9'
}

/// `str::parse::<u64>`: an unsigned decimal spelling whose value fits `u64`.
#[verifier::external_body]
pub(crate) fn parse_u64(text: &str) -> (r: Option<u64>)
    ensures
        r == (if std_unsigned_decimal(text@) && 0 <= int_spelling_value(text@) <= u64::MAX {
            Some(int_spelling_value(text@) as u64)
        } else {
            None
        }),
{
    text.parse::<u64>().ok()
}

/// `str::parse::<usize>`: an unsigned decimal spelling whose value fits
/// `usize`.
#[verifier::external_body]
pub(crate) fn parse_usize(text: &str) -> (r: Option<usize>)
    ensures
        r == (if std_unsigned_decimal(text@) && 0 <= int_spelling_value(text@) <= usize::MAX {
            Some(int_spelling_value(text@) as usize)
        } else {
            None
        }),
{
    text.parse::<usize>().ok()
}

/// The value of a constant integer index whose spelling `str::parse`
/// reads as an `i64`.
pub open spec fn spec_constant_index_value(e: Expr) -> Option<i64> {
    match e.spec_constant() {
        Some(ConstValue::Int(s)) => if std_signed_decimal(s@) && i64::MIN <= int_spelling_value(s@) <= i64::MAX {
            Some(int_spelling_value(s@) as i64)
        } else {
            None
        },
        _ => None,
    }
}

pub fn constant_index_value(expression: &Expr) -> (r: Option<i64>)
    requires
        expression.wf(),
    ensures
        r == spec_constant_index_value(*expression),
{
    let value = match &expression.kind {
        ExprKind::Constant(value) | ExprKind::GlobalConstant(_, value) => value,
        _ => return None,
    };
    match value {
        ConstValue::Int(text) => parse_i64(text.as_str()),
        _ => None,
    }
}

/// The union of the effects of a list of expressions with a base.
pub open spec fn effects_of(base: Effects, arguments: Seq<Expr>) -> Effects
    decreases arguments.len(),
{
    if arguments.len() == 0 {
        base
    } else {
        effects_of(base, arguments.drop_last()).spec_union(arguments.last().effects)
    }
}

/// The effects of one operand joined onto a base.
pub proof fn lemma_effects_of_one(base: Effects, a: Expr)
    ensures
        effects_of(base, seq![a]) == base.spec_union(a.effects),
{
    let s = seq![a];
    assert(s.drop_last() =~= Seq::<Expr>::empty());
    assert(effects_of(base, s.drop_last()) == base);
    assert(s.last() == a);
}

/// The effects of two operands joined onto a base, in order.
pub proof fn lemma_effects_of_two(base: Effects, a: Expr, b: Expr)
    ensures
        effects_of(base, seq![a, b]) == base.spec_union(a.effects).spec_union(b.effects),
{
    let s = seq![a, b];
    assert(s.drop_last() =~= seq![a]);
    lemma_effects_of_one(base, a);
    assert(s.last() == b);
}

/// Joins the effects of a slice of expressions onto `base`, in order.
pub fn join_argument_effects(base: Effects, arguments: &[&Expr]) -> (r: Effects)
    ensures
        r == effects_of(base, arguments@.map_values(|e: &Expr| *e)),
{
    let mut effects = base;
    let mut i: usize = 0;
    while i < arguments.len()
        invariant
            i <= arguments@.len(),
            effects == effects_of(base, arguments@.map_values(|e: &Expr| *e).take(i as int)),
        decreases arguments@.len() - i,
    {
        effects = effects.union(arguments[i].effects);
        proof {
            let all = arguments@.map_values(|e: &Expr| *e);
            assert(all.take(i + 1).drop_last() =~= all.take(i as int));
        }
        i += 1;
    }
    proof {
        assert(arguments@.map_values(|e: &Expr| *e).take(i as int) =~= arguments@.map_values(|e: &Expr| *e));
    }
    effects
}

/// The effects of a runtime slice operation on its arguments: a call that
/// may allocate, panic or write as told, with its arguments' effects.
pub fn slice_runtime_effects(arguments: &[&Expr], writes: bool, allocates: bool, panics: bool) -> (r: Effects)
    ensures
        r == effects_of(
            Effects {
                may_call: true,
                may_allocate: allocates,
                may_block: false,
                may_panic: panics,
                may_read: false,
                may_write: writes,
            },
            arguments@.map_values(|e: &Expr| *e),
        ),
{
    let base = Effects {
        may_call: true,
        may_allocate: allocates,
        may_block: false,
        may_panic: panics,
        may_read: false,
        may_write: writes,
    };
    join_argument_effects(base, arguments)
}

} // verus!
