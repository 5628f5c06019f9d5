//! Exact folding of Go constant operations.

use vstd::prelude::*;

use crate::bignum::{
    big_add, big_and, big_div, big_eq, big_from_u64, big_is_zero, big_lt, big_mul, big_neg,
    big_not, big_or, big_rem, big_shl, big_shr, big_sub, big_to_decimal, big_to_usize, big_xor,
    bitwise, int_spelling, pow2, trunc_div, trunc_rem, BigNum,
};
use crate::constant::{int_spelling_ok, int_spelling_value, parse_int_spelling, ConstValue};
use crate::exact::{
    exact_spelling, lemma_rat_congruence, lemma_rat_eq_equivalence, rat_add, rat_div, rat_eq,
    rat_lt, rat_mul, rat_neg, rat_sub, ExactNumber,
};
use crate::hir::{BinaryOp, Diagnostic, DiagnosticKind, SourceRef, UnaryOp};
use crate::types::{Ty, UintTy};
use crate::expressions::spec_lower_binary_op;
use crate::syntax::Token;
use crate::bignum::abs;

verus! {

/// The outcome of folding a constant operation.
pub enum Folded {
    Integer(int),
    Boolean(bool),
    Real((int, int)),
    Complex((int, int), (int, int)),
    Bytes(Seq<u8>),
    /// The operand itself.
    Unchanged,
    /// The operation does not fold these operands.
    NotFolded,
    Failure(DiagnosticKind),
}

/// `r` is the result that the outcome describes; `operand` is the value
/// that an `Unchanged` outcome keeps.
pub open spec fn folded_as(outcome: Folded, operand: ConstValue, r: Result<Option<ConstValue>, Diagnostic>) -> bool {
    match outcome {
        Folded::Integer(v) => r matches Ok(Some(ConstValue::Int(s))) && s@ == int_spelling(v),
        Folded::Boolean(b) => r matches Ok(Some(ConstValue::Bool(x))) && x == b,
        Folded::Real(p) => r matches Ok(Some(ConstValue::Float(x))) && x.wf() && rat_eq(x.value(), p),
        Folded::Complex(p, q) => r matches Ok(Some(ConstValue::Complex { real: a, imag: b })) && a.wf()
            && b.wf() && rat_eq(a.value(), p) && rat_eq(b.value(), q),
        Folded::Bytes(s) => r matches Ok(Some(ConstValue::String(v))) && v@ == s,
        Folded::Unchanged => r matches Ok(Some(c)) && c.same_constant(operand),
        Folded::NotFolded => r matches Ok(None),
        Folded::Failure(k) => r matches Err(d) && d.kind == k,
    }
}

pub open spec fn int_min(a: int, b: int) -> int {
    if b < a { b } else { a }
}

pub open spec fn int_max(a: int, b: int) -> int {
    if b < a { a } else { b }
}

/// Exact integer folding, with Go's truncated division and unbounded
/// two's-complement bit operations; shifts are limited to 4096 bits.
pub open spec fn integer_binary(op: BinaryOp, a: int, b: int) -> Folded {
    match op {
        BinaryOp::Add => Folded::Integer(a + b),
        BinaryOp::Sub => Folded::Integer(a - b),
        BinaryOp::Mul => Folded::Integer(a * b),
        BinaryOp::Div => if b == 0 {
            Folded::Failure(DiagnosticKind::Semantic)
        } else {
            Folded::Integer(trunc_div(a, b))
        },
        BinaryOp::Rem => if b == 0 {
            Folded::Failure(DiagnosticKind::Semantic)
        } else {
            Folded::Integer(trunc_rem(a, b))
        },
        BinaryOp::BitAnd => Folded::Integer(bitwise(0, a, b)),
        BinaryOp::BitOr => Folded::Integer(bitwise(1, a, b)),
        BinaryOp::BitXor => Folded::Integer(bitwise(2, a, b)),
        BinaryOp::AndNot => Folded::Integer(bitwise(0, a, -b - 1)),
        BinaryOp::Shl | BinaryOp::Shr => if b < 0 || b > usize::MAX {
            Folded::Failure(DiagnosticKind::Semantic)
        } else if b > 4096 {
            Folded::Failure(DiagnosticKind::Unsupported)
        } else if op == BinaryOp::Shl {
            Folded::Integer(a * pow2(b as nat))
        } else {
            Folded::Integer(a / pow2(b as nat))
        },
        BinaryOp::Equal => Folded::Boolean(a == b),
        BinaryOp::NotEqual => Folded::Boolean(a != b),
        BinaryOp::Less => Folded::Boolean(a < b),
        BinaryOp::LessEqual => Folded::Boolean(a <= b),
        BinaryOp::Greater => Folded::Boolean(a > b),
        BinaryOp::GreaterEqual => Folded::Boolean(a >= b),
        BinaryOp::Min => Folded::Integer(int_min(a, b)),
        BinaryOp::Max => Folded::Integer(int_max(a, b)),
        BinaryOp::LogicalAnd | BinaryOp::LogicalOr | BinaryOp::Complex => Folded::Failure(
            DiagnosticKind::Backend,
        ),
    }
}

pub open spec fn bool_binary(op: BinaryOp, a: bool, b: bool) -> Folded {
    match op {
        BinaryOp::Equal => Folded::Boolean(a == b),
        BinaryOp::NotEqual => Folded::Boolean(a != b),
        BinaryOp::LogicalAnd => Folded::Boolean(a && b),
        BinaryOp::LogicalOr => Folded::Boolean(a || b),
        _ => Folded::NotFolded,
    }
}

/// Lexicographic order of byte strings.
pub open spec fn lex_less(a: Seq<u8>, b: Seq<u8>) -> bool
    decreases a.len(),
{
    if a.len() == 0 {
        b.len() > 0
    } else if b.len() == 0 {
        false
    } else if a[0] != b[0] {
        a[0] < b[0]
    } else {
        lex_less(a.skip(1), b.skip(1))
    }
}

pub open spec fn string_binary(op: BinaryOp, a: Seq<u8>, b: Seq<u8>) -> Folded {
    match op {
        BinaryOp::Add => Folded::Bytes(a + b),
        BinaryOp::Equal => Folded::Boolean(a == b),
        BinaryOp::NotEqual => Folded::Boolean(a != b),
        BinaryOp::Less => Folded::Boolean(lex_less(a, b)),
        BinaryOp::LessEqual => Folded::Boolean(!lex_less(b, a)),
        BinaryOp::Greater => Folded::Boolean(lex_less(b, a)),
        BinaryOp::GreaterEqual => Folded::Boolean(!lex_less(a, b)),
        BinaryOp::Min => Folded::Bytes(if lex_less(b, a) { b } else { a }),
        BinaryOp::Max => Folded::Bytes(if lex_less(b, a) { a } else { b }),
        _ => Folded::NotFolded,
    }
}

/// Exact real folding of fractions with positive denominators.
pub open spec fn real_binary(op: BinaryOp, p: (int, int), q: (int, int)) -> Folded {
    match op {
        BinaryOp::Add => Folded::Real(rat_add(p, q)),
        BinaryOp::Sub => Folded::Real(rat_sub(p, q)),
        BinaryOp::Mul => Folded::Real(rat_mul(p, q)),
        BinaryOp::Div => if q.0 == 0 {
            Folded::Failure(DiagnosticKind::Semantic)
        } else {
            Folded::Real(rat_div(p, q))
        },
        BinaryOp::Equal => Folded::Boolean(rat_eq(p, q)),
        BinaryOp::NotEqual => Folded::Boolean(!rat_eq(p, q)),
        BinaryOp::Less => Folded::Boolean(rat_lt(p, q)),
        BinaryOp::LessEqual => Folded::Boolean(!rat_lt(q, p)),
        BinaryOp::Greater => Folded::Boolean(rat_lt(q, p)),
        BinaryOp::GreaterEqual => Folded::Boolean(!rat_lt(p, q)),
        BinaryOp::Min => Folded::Real(if rat_lt(q, p) { q } else { p }),
        BinaryOp::Max => Folded::Real(if rat_lt(q, p) { p } else { q }),
        _ => Folded::Failure(DiagnosticKind::Backend),
    }
}

/// The squared magnitude of a complex number given by its components.
pub open spec fn rat_norm(r: (int, int), i: (int, int)) -> (int, int) {
    rat_add(rat_mul(r, r), rat_mul(i, i))
}

/// Exact complex folding of component fractions.
pub open spec fn complex_binary(
    op: BinaryOp,
    pr: (int, int),
    pi: (int, int),
    qr: (int, int),
    qi: (int, int),
) -> Folded {
    match op {
        BinaryOp::Add => Folded::Complex(rat_add(pr, qr), rat_add(pi, qi)),
        BinaryOp::Sub => Folded::Complex(rat_sub(pr, qr), rat_sub(pi, qi)),
        BinaryOp::Mul => Folded::Complex(
            rat_sub(rat_mul(pr, qr), rat_mul(pi, qi)),
            rat_add(rat_mul(pr, qi), rat_mul(pi, qr)),
        ),
        BinaryOp::Div => if rat_norm(qr, qi).0 == 0 {
            Folded::Failure(DiagnosticKind::Semantic)
        } else {
            Folded::Complex(
                rat_div(rat_add(rat_mul(pr, qr), rat_mul(pi, qi)), rat_norm(qr, qi)),
                rat_div(rat_sub(rat_mul(pi, qr), rat_mul(pr, qi)), rat_norm(qr, qi)),
            )
        },
        BinaryOp::Equal => Folded::Boolean(rat_eq(pr, qr) && rat_eq(pi, qi)),
        BinaryOp::NotEqual => Folded::Boolean(!(rat_eq(pr, qr) && rat_eq(pi, qi))),
        _ => Folded::Failure(DiagnosticKind::Backend),
    }
}

/// The folding of a binary operation on two constants.
pub open spec fn constant_binary(op: BinaryOp, left: ConstValue, right: ConstValue) -> Folded {
    match (left, right) {
        (ConstValue::Int(a), ConstValue::Int(b)) => integer_binary(
            op,
            int_spelling_value(a@),
            int_spelling_value(b@),
        ),
        (ConstValue::Bool(a), ConstValue::Bool(b)) => bool_binary(op, a, b),
        (ConstValue::String(a), ConstValue::String(b)) => string_binary(op, a@, b@),
        (ConstValue::Bool(_), _) | (ConstValue::String(_), _) | (_, ConstValue::Bool(_)) | (
            _,
            ConstValue::String(_),
        ) => Folded::NotFolded,
        (ConstValue::Complex { .. }, _) | (_, ConstValue::Complex { .. }) => match (
            left.spec_components(),
            right.spec_components(),
        ) {
            (Some((pr, pi)), Some((qr, qi))) => complex_binary(op, pr, pi, qr, qi),
            _ => Folded::NotFolded,
        },
        _ => match (left.spec_exact_number(), right.spec_exact_number()) {
            (Some(p), Some(q)) => real_binary(op, p, q),
            _ => Folded::NotFolded,
        },
    }
}

/// The bit width of an unsigned integer type.
pub open spec fn uint_width(k: UintTy) -> nat {
    match k {
        UintTy::Uint8 => 8,
        UintTy::Uint16 => 16,
        UintTy::Uint32 => 32,
        _ => 64,
    }
}

/// The folding of a unary operation on a constant of type `ty`.
pub open spec fn constant_unary(op: UnaryOp, value: ConstValue, ty: Ty) -> Folded {
    match (op, value) {
        (UnaryOp::Positive, ConstValue::Int(_)) => Folded::Unchanged,
        (UnaryOp::Negative, ConstValue::Int(s)) => Folded::Integer(-int_spelling_value(s@)),
        (UnaryOp::Not, ConstValue::Bool(b)) => Folded::Boolean(!b),
        (UnaryOp::Positive, ConstValue::Float(_)) => Folded::Unchanged,
        (UnaryOp::Positive, ConstValue::Complex { .. }) => Folded::Unchanged,
        (UnaryOp::Negative, ConstValue::Float(x)) => Folded::Real(rat_neg(x.value())),
        (UnaryOp::Negative, ConstValue::Complex { real: a, imag: b }) => Folded::Complex(
            rat_neg(a.value()),
            rat_neg(b.value()),
        ),
        (UnaryOp::BitNot, ConstValue::Int(s)) => match ty.spec_underlying() {
            Ty::Uint(k) => Folded::Integer(
                bitwise(2, pow2(uint_width(k)) - 1, int_spelling_value(s@)),
            ),
            _ => Folded::Integer(-int_spelling_value(s@) - 1),
        },
        _ => Folded::NotFolded,
    }
}

/// The decimal constant of a big integer.
fn int_constant(n: &BigNum) -> (r: ConstValue)
    ensures
        r matches ConstValue::Int(s) && s@ == int_spelling(n.value()),
{
    ConstValue::Int(big_to_decimal(n))
}

/// The integer value of a well-formed integer spelling.
fn int_value(s: &String) -> (r: BigNum)
    requires
        int_spelling_ok(s@),
    ensures
        r.value() == int_spelling_value(s@),
        r.wf(),
{
    match parse_int_spelling(s) {
        Some(n) => n,
        None => {
            assert(false);
            big_from_u64(0)
        },
    }
}

/// Folds a unary operation on a constant of type `ty`.
pub fn fold_constant_unary(op: UnaryOp, value: &ConstValue, ty: &Ty, source: SourceRef) -> (r: Result<
    Option<ConstValue>,
    Diagnostic,
>)
    requires
        value.wf(),
    ensures
        folded_as(constant_unary(op, *value, *ty), *value, r),
        r matches Ok(Some(c)) ==> c.wf(),
{
    let folded = match (op, value) {
        (UnaryOp::Positive, ConstValue::Int(_)) => value.duplicate(),
        (UnaryOp::Negative, ConstValue::Int(s)) => {
            let v = int_value(s);
            let negated = big_neg(&v);
            proof {
                crate::literals::lemma_int_spelling_roundtrip(negated.value());
            }
            int_constant(&negated)
        },
        (UnaryOp::Not, ConstValue::Bool(b)) => ConstValue::Bool(!*b),
        (UnaryOp::Positive, ConstValue::Float(_)) => value.duplicate(),
        (UnaryOp::Positive, ConstValue::Complex { .. }) => value.duplicate(),
        (UnaryOp::Negative, ConstValue::Float(x)) => ConstValue::Float(x.negated()),
        (UnaryOp::Negative, ConstValue::Complex { real: a, imag: b }) => ConstValue::Complex {
            real: a.negated(),
            imag: b.negated(),
        },
        (UnaryOp::BitNot, ConstValue::Int(s)) => {
            let v = int_value(s);
            let result = if let Ty::Uint(kind) = ty.underlying() {
                let width: usize = match kind {
                    UintTy::Uint8 => 8,
                    UintTy::Uint16 => 16,
                    UintTy::Uint32 => 32,
                    _ => 64,
                };
                let one = big_from_u64(1);
                let mask = big_sub(&big_shl(&one, width), &one);
                big_xor(&mask, &v)
            } else {
                big_not(&v)
            };
            proof {
                crate::literals::lemma_int_spelling_roundtrip(result.value());
            }
            int_constant(&result)
        },
        _ => return Ok(None),
    };
    Ok(Some(folded))
}


/// Folds a binary operation on two integer constants.
pub fn fold_integer_binary(op: BinaryOp, left: &String, right: &String, source: SourceRef) -> (r: Result<
    ConstValue,
    Diagnostic,
>)
    requires
        int_spelling_ok(left@),
        int_spelling_ok(right@),
    ensures
        folded_as(
            integer_binary(op, int_spelling_value(left@), int_spelling_value(right@)),
            ConstValue::Bool(false),
            match r {
                Ok(c) => Ok(Some(c)),
                Err(d) => Err(d),
            },
        ),
        r matches Ok(c) ==> c.wf(),
{
    let a = int_value(left);
    let b = int_value(right);
    let integer = |n: BigNum| -> (c: ConstValue)
        ensures
            c matches ConstValue::Int(s) && s@ == int_spelling(n.value()) && c.wf(),
        {
            proof {
                crate::literals::lemma_int_spelling_roundtrip(n.value());
            }
            int_constant(&n)
        };
    match op {
        BinaryOp::Add => Ok(integer(big_add(&a, &b))),
        BinaryOp::Sub => Ok(integer(big_sub(&a, &b))),
        BinaryOp::Mul => Ok(integer(big_mul(&a, &b))),
        BinaryOp::Div if big_is_zero(&b) => Err(Diagnostic::semantic("division by zero", source)),
        BinaryOp::Rem if big_is_zero(&b) => Err(Diagnostic::semantic("division by zero", source)),
        BinaryOp::Div => Ok(integer(big_div(&a, &b))),
        BinaryOp::Rem => Ok(integer(big_rem(&a, &b))),
        BinaryOp::BitAnd => Ok(integer(big_and(&a, &b))),
        BinaryOp::BitOr => Ok(integer(big_or(&a, &b))),
        BinaryOp::BitXor => Ok(integer(big_xor(&a, &b))),
        BinaryOp::AndNot => Ok(integer(big_and(&a, &big_not(&b)))),
        BinaryOp::Shl | BinaryOp::Shr => {
            let shift = match big_to_usize(&b) {
                Some(shift) => shift,
                None => {
                    return Err(
                        Diagnostic::semantic("shift count must be a non-negative integer", source),
                    );
                },
            };
            if shift > 4096 {
                return Err(
                    Diagnostic::unsupported(
                        "constant shifts larger than 4096 bits are not implemented",
                        source,
                    ),
                );
            }
            let value = if op == BinaryOp::Shl {
                big_shl(&a, shift)
            } else {
                big_shr(&a, shift)
            };
            Ok(integer(value))
        },
        BinaryOp::Equal => Ok(ConstValue::Bool(big_eq(&a, &b))),
        BinaryOp::NotEqual => Ok(ConstValue::Bool(!big_eq(&a, &b))),
        BinaryOp::Less => Ok(ConstValue::Bool(big_lt(&a, &b))),
        BinaryOp::LessEqual => Ok(ConstValue::Bool(!big_lt(&b, &a))),
        BinaryOp::Greater => Ok(ConstValue::Bool(big_lt(&b, &a))),
        BinaryOp::GreaterEqual => Ok(ConstValue::Bool(!big_lt(&a, &b))),
        BinaryOp::Min => Ok(integer(if big_lt(&b, &a) { b } else { a })),
        BinaryOp::Max => Ok(integer(if big_lt(&b, &a) { a } else { b })),
        BinaryOp::LogicalAnd | BinaryOp::LogicalOr | BinaryOp::Complex => Err(
            Diagnostic::backend("invalid integer operator reached exact constant folding"),
        ),
    }
}

/// Lexicographic `<` on byte strings.
pub fn bytes_less(a: &Vec<u8>, b: &Vec<u8>) -> (r: bool)
    ensures
        r == lex_less(a@, b@),
{
    let mut i: usize = 0;
    assert(a@.skip(0) =~= a@);
    assert(b@.skip(0) =~= b@);
    while i < a.len() && i < b.len() && a[i] == b[i]
        invariant
            i <= a@.len(),
            i <= b@.len(),
            lex_less(a@, b@) == lex_less(a@.skip(i as int), b@.skip(i as int)),
        decreases a@.len() - i,
    {
        assert(a@.skip(i as int).skip(1) =~= a@.skip(i + 1));
        assert(b@.skip(i as int).skip(1) =~= b@.skip(i + 1));
        i += 1;
    }
    if i == a.len() {
        i < b.len()
    } else if i == b.len() {
        false
    } else {
        a[i] < b[i]
    }
}

/// Byte-string equality.
pub fn bytes_equal(a: &Vec<u8>, b: &Vec<u8>) -> (r: bool)
    ensures
        r == (a@ == b@),
{
    if a.len() != b.len() {
        return false;
    }
    let mut i: usize = 0;
    while i < a.len()
        invariant
            a@.len() == b@.len(),
            i <= a@.len(),
            forall|j: int| 0 <= j < i ==> a@[j] == b@[j],
        decreases a@.len() - i,
    {
        if a[i] != b[i] {
            return false;
        }
        i += 1;
    }
    assert(a@ =~= b@);
    true
}

/// A copy of a byte string.
fn bytes_copy(a: &Vec<u8>) -> (r: Vec<u8>)
    ensures
        r@ == a@,
{
    let r = a.clone();
    assert(r@ =~= a@);
    r
}

/// Folds a binary operation on two string constants.
fn fold_string_binary(op: BinaryOp, left: &Vec<u8>, right: &Vec<u8>) -> (r: Option<ConstValue>)
    ensures
        folded_as(string_binary(op, left@, right@), ConstValue::Bool(false), Ok(r)),
{
    match op {
        BinaryOp::Add => {
            let mut result = bytes_copy(left);
            let mut i: usize = 0;
            while i < right.len()
                invariant
                    i <= right@.len(),
                    result@ == left@ + right@.take(i as int),
                decreases right@.len() - i,
            {
                result.push(right[i]);
                i += 1;
                assert(result@ == left@ + right@.take(i as int));
            }
            assert(right@.take(right@.len() as int) == right@);
            Some(ConstValue::String(result))
        },
        BinaryOp::Equal => Some(ConstValue::Bool(bytes_equal(left, right))),
        BinaryOp::NotEqual => Some(ConstValue::Bool(!bytes_equal(left, right))),
        BinaryOp::Less => Some(ConstValue::Bool(bytes_less(left, right))),
        BinaryOp::LessEqual => Some(ConstValue::Bool(!bytes_less(right, left))),
        BinaryOp::Greater => Some(ConstValue::Bool(bytes_less(right, left))),
        BinaryOp::GreaterEqual => Some(ConstValue::Bool(!bytes_less(left, right))),
        BinaryOp::Min => Some(
            ConstValue::String(
                if bytes_less(right, left) {
                    bytes_copy(right)
                } else {
                    bytes_copy(left)
                },
            ),
        ),
        BinaryOp::Max => Some(
            ConstValue::String(
                if bytes_less(right, left) {
                    bytes_copy(left)
                } else {
                    bytes_copy(right)
                },
            ),
        ),
        _ => None,
    }
}

/// Folds a binary operation on two exact real numbers.
pub fn fold_exact_real(op: BinaryOp, left: &ExactNumber, right: &ExactNumber, source: SourceRef) -> (r: Result<
    ConstValue,
    Diagnostic,
>)
    requires
        left.wf(),
        right.wf(),
    ensures
        folded_as(
            real_binary(op, left.value(), right.value()),
            ConstValue::Bool(false),
            match r {
                Ok(c) => Ok(Some(c)),
                Err(d) => Err(d),
            },
        ),
        r matches Ok(c) ==> c.wf(),
{
    match op {
        BinaryOp::Add => Ok(ConstValue::Float(left.add(right))),
        BinaryOp::Sub => Ok(ConstValue::Float(left.sub(right))),
        BinaryOp::Mul => Ok(ConstValue::Float(left.mul(right))),
        BinaryOp::Div => match left.div(right) {
            Some(q) => Ok(ConstValue::Float(q)),
            None => Err(Diagnostic::semantic("division by zero", source)),
        },
        BinaryOp::Equal => Ok(ConstValue::Bool(left.equal(right))),
        BinaryOp::NotEqual => Ok(ConstValue::Bool(!left.equal(right))),
        BinaryOp::Less => Ok(ConstValue::Bool(left.less(right))),
        BinaryOp::LessEqual => Ok(ConstValue::Bool(!right.less(left))),
        BinaryOp::Greater => Ok(ConstValue::Bool(right.less(left))),
        BinaryOp::GreaterEqual => Ok(ConstValue::Bool(!left.less(right))),
        BinaryOp::Min => {
            let m = left.min(right);
            proof {
                lemma_rat_eq_equivalence(m.value(), m.value(), m.value());
            }
            Ok(ConstValue::Float(m))
        },
        BinaryOp::Max => {
            let m = left.max(right);
            proof {
                lemma_rat_eq_equivalence(m.value(), m.value(), m.value());
            }
            Ok(ConstValue::Float(m))
        },
        _ => Err(Diagnostic::backend("invalid real operator reached exact constant folding")),
    }
}


proof fn lemma_nonzero_mul(a: int, b: int)
    requires
        a != 0,
        b != 0,
    ensures
        a * b != 0,
{
    assert(a * b != 0) by (nonlinear_arith)
        requires
            a != 0,
            b != 0,
    ;
}

/// A result computed from fractions equal to `p` and `q` equals the same
/// operation on `p` and `q`: 0 is addition, 1 subtraction, 2 multiplication
/// and 3 division.
proof fn lemma_rat_chain(z: (int, int), x: (int, int), p: (int, int), y: (int, int), q: (int, int), kind: int)
    requires
        x.1 != 0,
        p.1 != 0,
        y.1 != 0,
        q.1 != 0,
        z.1 != 0,
        rat_eq(x, p),
        rat_eq(y, q),
        kind == 0 ==> rat_eq(z, rat_add(x, y)),
        kind == 1 ==> rat_eq(z, rat_sub(x, y)),
        kind == 2 ==> rat_eq(z, rat_mul(x, y)),
        kind == 3 ==> rat_eq(z, rat_div(x, y)) && y.0 != 0 && q.0 != 0,
    ensures
        kind == 0 ==> rat_eq(z, rat_add(p, q)),
        kind == 1 ==> rat_eq(z, rat_sub(p, q)),
        kind == 2 ==> rat_eq(z, rat_mul(p, q)),
        kind == 3 ==> rat_eq(z, rat_div(p, q)),
{
    lemma_rat_congruence(x, p, y, q);
    lemma_nonzero_mul(x.1, y.1);
    lemma_nonzero_mul(p.1, q.1);
    if kind == 0 {
        lemma_rat_eq_equivalence(z, rat_add(x, y), rat_add(p, q));
    } else if kind == 1 {
        lemma_rat_eq_equivalence(z, rat_sub(x, y), rat_sub(p, q));
    } else if kind == 2 {
        lemma_rat_eq_equivalence(z, rat_mul(x, y), rat_mul(p, q));
    } else if kind == 3 {
        lemma_nonzero_mul(x.1, y.0);
        lemma_nonzero_mul(p.1, q.0);
        lemma_rat_eq_equivalence(z, rat_div(x, y), rat_div(p, q));
    }
}

/// The complex components of a numeric constant.
pub fn exact_complex_parts(value: &ConstValue) -> (r: Result<(ExactNumber, ExactNumber), Diagnostic>)
    requires
        value.wf(),
    ensures
        r is Ok <==> value.spec_components() is Some,
        r matches Ok(p) ==> p.0.wf() && p.1.wf() && value.spec_components() == Some(
            (p.0.value(), p.1.value()),
        ),
        r matches Err(d) ==> d.kind == DiagnosticKind::Backend,
{
    match value.components() {
        Some(parts) => Ok(parts),
        None => Err(Diagnostic::backend("nonnumeric value reached exact complex constant folding")),
    }
}

/// Folds a binary operation on two numeric constants, one of them complex.
pub fn fold_exact_complex(op: BinaryOp, left: &ConstValue, right: &ConstValue, source: SourceRef) -> (r: Result<
    ConstValue,
    Diagnostic,
>)
    requires
        left.wf(),
        right.wf(),
    ensures
        (left.spec_components() is None || right.spec_components() is None) ==> (r matches Err(d) && d.kind
            == DiagnosticKind::Backend),
        (left.spec_components() is Some && right.spec_components() is Some) ==> ({
            let (pr, pi) = left.spec_components()->0;
            let (qr, qi) = right.spec_components()->0;
            folded_as(
                complex_binary(op, pr, pi, qr, qi),
                ConstValue::Bool(false),
                match r {
                    Ok(c) => Ok(Some(c)),
                    Err(d) => Err(d),
                },
            )
        }),
        r matches Ok(c) ==> c.wf(),
{
    let (lr, li) = exact_complex_parts(left)?;
    let (rr, ri) = exact_complex_parts(right)?;
    let ghost pr = lr.value();
    let ghost pi = li.value();
    let ghost qr = rr.value();
    let ghost qi = ri.value();
    match op {
        BinaryOp::Add => Ok(ConstValue::Complex { real: lr.add(&rr), imag: li.add(&ri) }),
        BinaryOp::Sub => Ok(ConstValue::Complex { real: lr.sub(&rr), imag: li.sub(&ri) }),
        BinaryOp::Mul => {
            let a = lr.mul(&rr);
            let b = li.mul(&ri);
            let c = lr.mul(&ri);
            let d = li.mul(&rr);
            let re_part = a.sub(&b);
            let im_part = c.add(&d);
            proof {
                lemma_nonzero_mul(pr.1, qr.1);
                lemma_nonzero_mul(pi.1, qi.1);
                lemma_nonzero_mul(pr.1, qi.1);
                lemma_nonzero_mul(pi.1, qr.1);
                lemma_rat_chain(re_part.value(), a.value(), rat_mul(pr, qr), b.value(), rat_mul(pi, qi), 1);
                lemma_rat_chain(im_part.value(), c.value(), rat_mul(pr, qi), d.value(), rat_mul(pi, qr), 0);
            }
            Ok(ConstValue::Complex { real: re_part, imag: im_part })
        },
        BinaryOp::Div => {
            let rr2 = rr.mul(&rr);
            let ri2 = ri.mul(&ri);
            let denominator = rr2.add(&ri2);
            proof {
                lemma_nonzero_mul(qr.1, qr.1);
                lemma_nonzero_mul(qi.1, qi.1);
                lemma_rat_chain(denominator.value(), rr2.value(), rat_mul(qr, qr), ri2.value(), rat_mul(qi, qi), 0);
                lemma_nonzero_mul(qr.1 * qr.1, qi.1 * qi.1);
                lemma_zero_preserved(denominator.value(), rat_norm(qr, qi));
            }
            if denominator.is_zero() {
                return Err(Diagnostic::semantic("division by zero", source));
            }
            let a = lr.mul(&rr);
            let b = li.mul(&ri);
            let c = li.mul(&rr);
            let d = lr.mul(&ri);
            let real_numerator = a.add(&b);
            let imag_numerator = c.sub(&d);
            let re_part = match real_numerator.div(&denominator) {
                Some(v) => v,
                None => return Err(Diagnostic::backend("nonzero complex denominator vanished")),
            };
            let im_part = match imag_numerator.div(&denominator) {
                Some(v) => v,
                None => return Err(Diagnostic::backend("nonzero complex denominator vanished")),
            };
            proof {
                lemma_nonzero_mul(pr.1, qr.1);
                lemma_nonzero_mul(pi.1, qi.1);
                lemma_nonzero_mul(pr.1, qi.1);
                lemma_nonzero_mul(pi.1, qr.1);
                let rn = rat_add(rat_mul(pr, qr), rat_mul(pi, qi));
                let inn = rat_sub(rat_mul(pi, qr), rat_mul(pr, qi));
                let norm = rat_norm(qr, qi);
                lemma_rat_chain(real_numerator.value(), a.value(), rat_mul(pr, qr), b.value(), rat_mul(pi, qi), 0);
                lemma_rat_chain(imag_numerator.value(), c.value(), rat_mul(pi, qr), d.value(), rat_mul(pr, qi), 1);
                lemma_nonzero_mul(pr.1 * qr.1, pi.1 * qi.1);
                lemma_nonzero_mul(pi.1 * qr.1, pr.1 * qi.1);
                lemma_rat_chain(re_part.value(), real_numerator.value(), rn, denominator.value(), norm, 3);
                lemma_rat_chain(im_part.value(), imag_numerator.value(), inn, denominator.value(), norm, 3);
            }
            Ok(ConstValue::Complex { real: re_part, imag: im_part })
        },
        BinaryOp::Equal => Ok(ConstValue::Bool(lr.equal(&rr) && li.equal(&ri))),
        BinaryOp::NotEqual => Ok(ConstValue::Bool(!(lr.equal(&rr) && li.equal(&ri)))),
        _ => Err(Diagnostic::backend("invalid complex operator reached exact constant folding")),
    }
}

/// Equal fractions with nonzero denominators are both zero or both nonzero.
proof fn lemma_zero_preserved(x: (int, int), p: (int, int))
    requires
        x.1 != 0,
        p.1 != 0,
        rat_eq(x, p),
    ensures
        (x.0 == 0) == (p.0 == 0),
{
    if x.0 == 0 {
        assert(p.0 * x.1 == 0);
        assert(p.0 == 0) by (nonlinear_arith)
            requires
                p.0 * x.1 == 0,
                x.1 != 0,
        ;
    }
    if p.0 == 0 {
        assert(x.0 * p.1 == 0);
        assert(x.0 == 0) by (nonlinear_arith)
            requires
                x.0 * p.1 == 0,
                p.1 != 0,
        ;
    }
}

/// Folds a binary operation on two constants.
pub fn fold_constant_binary(op: BinaryOp, left: &ConstValue, right: &ConstValue, source: SourceRef) -> (r: Result<
    Option<ConstValue>,
    Diagnostic,
>)
    requires
        left.wf(),
        right.wf(),
    ensures
        folded_as(constant_binary(op, *left, *right), ConstValue::Bool(false), r),
        r matches Ok(Some(c)) ==> c.wf(),
{
    match (left, right) {
        (ConstValue::Int(a), ConstValue::Int(b)) => match fold_integer_binary(op, a, b, source) {
            Ok(c) => Ok(Some(c)),
            Err(d) => Err(d),
        },
        (ConstValue::Bool(a), ConstValue::Bool(b)) => Ok(
            match op {
                BinaryOp::Equal => Some(ConstValue::Bool(*a == *b)),
                BinaryOp::NotEqual => Some(ConstValue::Bool(*a != *b)),
                BinaryOp::LogicalAnd => Some(ConstValue::Bool(*a && *b)),
                BinaryOp::LogicalOr => Some(ConstValue::Bool(*a || *b)),
                _ => None,
            },
        ),
        (ConstValue::String(a), ConstValue::String(b)) => Ok(fold_string_binary(op, a, b)),
        (ConstValue::Bool(_), _) | (ConstValue::String(_), _) | (_, ConstValue::Bool(_)) | (
            _,
            ConstValue::String(_),
        ) => Ok(None),
        (ConstValue::Complex { .. }, _) | (_, ConstValue::Complex { .. }) => {
            match fold_exact_complex(op, left, right, source) {
                Ok(c) => Ok(Some(c)),
                Err(d) => Err(d),
            }
        },
        _ => {
            let a = match left.exact_number() {
                Some(x) => x,
                None => return Err(Diagnostic::backend("missing exact left real constant")),
            };
            let b = match right.exact_number() {
                Some(x) => x,
                None => return Err(Diagnostic::backend("missing exact right real constant")),
            };
            match fold_exact_real(op, &a, &b, source) {
                Ok(c) => Ok(Some(c)),
                Err(d) => Err(d),
            }
        },
    }
}

/// How a constant reads in a diagnostic.
pub open spec fn describe(value: ConstValue) -> Seq<char> {
    match value {
        ConstValue::Bool(b) => if b {
            seq!['t', 'r', 'u', 'e']
        } else {
            seq!['f', 'a', 'l', 's', 'e']
        },
        ConstValue::Int(s) => s@,
        ConstValue::Float(x) => exact_spelling(x.num(), x.den()),
        ConstValue::Complex { real: a, imag: b } => seq!['('] + exact_spelling(a.num(), a.den())
            + seq![' ', '+', ' '] + exact_spelling(b.num(), b.den()) + seq!['i', ')'],
        ConstValue::String(_) => seq!['o', 'f', ' ', 's', 't', 'r', 'i', 'n', 'g', ' ', 't', 'y', 'p', 'e'],
    }
}

/// Describes a constant for a diagnostic.
pub fn describe_constant(value: &ConstValue) -> (r: String)
    ensures
        r@ == describe(*value),
{
    match value {
        ConstValue::Bool(b) => if *b {
            proof {
                reveal_strlit("true");
            }
            String::from_str("true")
        } else {
            proof {
                reveal_strlit("false");
            }
            String::from_str("false")
        },
        ConstValue::Int(s) => s.clone(),
        ConstValue::Float(x) => x.to_spelling(),
        ConstValue::Complex { real: a, imag: b } => {
            proof {
                reveal_strlit("(");
                reveal_strlit(" + ");
                reveal_strlit("i)");
            }
            let mut text = String::from_str("(");
            let re_text = a.to_spelling();
            let im_text = b.to_spelling();
            text.append(re_text.as_str());
            text.append(" + ");
            text.append(im_text.as_str());
            text.append("i)");
            text
        },
        ConstValue::String(_) => {
            proof {
                reveal_strlit("of string type");
            }
            String::from_str("of string type")
        },
    }
}

/// The message of a shift operand that is not an integer constant.
pub open spec fn shift_operand_message(role: Seq<char>, value: ConstValue) -> Seq<char> {
    "invalid operation: "@ + role + seq![' '] + describe(value) + " must be an integer constant"@
}

/// The integer constant of a shift operand, or a diagnostic naming its
/// `role` when the operand is not integral.
pub fn constant_shift_integer_operand(value: &ConstValue, role: &str, source: SourceRef) -> (r: Result<
    ConstValue,
    Diagnostic,
>)
    requires
        value.wf(),
    ensures
        r is Ok <==> value.spec_integer_value() is Some,
        r matches Ok(c) ==> c matches ConstValue::Int(s) && s@ == int_spelling(
            value.spec_integer_value()->0,
        ),
        r matches Err(d) ==> d.kind == DiagnosticKind::Semantic && d.source == Some(source)
            && d.message@ == shift_operand_message(role@, *value),
{
    match value.exact_integer() {
        Some(c) => Ok(c),
        None => {
            let mut message = String::from_str("invalid operation: ");
            message.append(role);
            message.append(" ");
            let described = describe_constant(value);
            message.append(described.as_str());
            message.append(" must be an integer constant");
            proof {
                reveal_strlit(" ");
            }
            Err(Diagnostic { kind: DiagnosticKind::Semantic, message, source: Some(source) })
        },
    }
}

/// Folds a constant shift whose left operand is untyped: both operands
/// are first made integer constants.
pub fn fold_untyped_constant_shift(op: BinaryOp, left: &ConstValue, right: &ConstValue, source: SourceRef) -> (r:
    Result<ConstValue, Diagnostic>)
    requires
        left.wf(),
        right.wf(),
        op == BinaryOp::Shl || op == BinaryOp::Shr,
    ensures
        left.spec_integer_value() is None ==> (r matches Err(d) && d.kind == DiagnosticKind::Semantic
            && d.message@ == shift_operand_message("shifted operand"@, *left)),
        left.spec_integer_value() is Some && right.spec_integer_value() is None ==> (r matches Err(d)
            && d.kind == DiagnosticKind::Semantic && d.message@ == shift_operand_message(
            "shift count"@,
            *right,
        )),
        left.spec_integer_value() is Some && right.spec_integer_value() is Some ==> folded_as(
            integer_binary(op, left.spec_integer_value()->0, right.spec_integer_value()->0),
            ConstValue::Bool(false),
            match r {
                Ok(c) => Ok(Some(c)),
                Err(d) => Err(d),
            },
        ),
        r matches Ok(c) ==> c.wf(),
{
    let a = constant_shift_integer_operand(left, "shifted operand", source)?;
    let b = constant_shift_integer_operand(right, "shift count", source)?;
    proof {
        crate::literals::lemma_int_spelling_roundtrip(left.spec_integer_value()->0);
        crate::literals::lemma_int_spelling_roundtrip(right.spec_integer_value()->0);
    }
    match fold_constant_binary(op, &a, &b, source)? {
        Some(c) => Ok(c),
        None => Err(Diagnostic::backend("integer constant shift did not fold")),
    }
}

/// Exclusive or of a number with itself clears every bit; inclusive or
/// and and of a number with itself give the number back.
pub proof fn lemma_bitwise_self(a: int)
    ensures
        bitwise(2, a, a) == 0,
        bitwise(1, a, a) == a,
        bitwise(0, a, a) == a,
    decreases abs(a),
{
    if !(a == 0 || a == -1) {
        let h = a / 2;
        assert(abs(h) < abs(a));
        assert(abs(h) + abs(h) < abs(a) + abs(a));
        lemma_bitwise_self(h);
        let r = a % 2;
        assert(r == 0 || r == 1);
        assert(2 * h + r == a);
    }
}

/// Each operator token folds integer constants as the Go operator it
/// spells: `+ - *` are exact arithmetic, `/` and `%` truncate toward zero,
/// `& | ^ &^` are the two's-complement bitwise operations, the shifts
/// multiply or floor-divide by a power of two, and the comparisons compare.
/// In particular `x ^ x` is zero while `x | x` and `x & x` are `x`.
pub proof fn lemma_operator_tokens_fold_as_spelled(a: int, b: int)
    ensures
        integer_binary(spec_lower_binary_op(Token::ADD)->0, a, b) == Folded::Integer(a + b),
        integer_binary(spec_lower_binary_op(Token::SUB)->0, a, b) == Folded::Integer(a - b),
        integer_binary(spec_lower_binary_op(Token::MUL)->0, a, b) == Folded::Integer(a * b),
        b != 0 ==> integer_binary(spec_lower_binary_op(Token::QUO)->0, a, b) == Folded::Integer(trunc_div(a, b)),
        b != 0 ==> integer_binary(spec_lower_binary_op(Token::REM)->0, a, b) == Folded::Integer(trunc_rem(a, b)),
        integer_binary(spec_lower_binary_op(Token::AND)->0, a, b) == Folded::Integer(bitwise(0, a, b)),
        integer_binary(spec_lower_binary_op(Token::OR)->0, a, b) == Folded::Integer(bitwise(1, a, b)),
        integer_binary(spec_lower_binary_op(Token::XOR)->0, a, b) == Folded::Integer(bitwise(2, a, b)),
        integer_binary(spec_lower_binary_op(Token::AND_NOT)->0, a, b) == Folded::Integer(bitwise(0, a, -b - 1)),
        0 <= b <= 4096 ==> integer_binary(spec_lower_binary_op(Token::SHL)->0, a, b) == Folded::Integer(
            a * pow2(b as nat),
        ),
        0 <= b <= 4096 ==> integer_binary(spec_lower_binary_op(Token::SHR)->0, a, b) == Folded::Integer(
            a / pow2(b as nat),
        ),
        integer_binary(spec_lower_binary_op(Token::EQL)->0, a, b) == Folded::Boolean(a == b),
        integer_binary(spec_lower_binary_op(Token::NEQ)->0, a, b) == Folded::Boolean(a != b),
        integer_binary(spec_lower_binary_op(Token::LSS)->0, a, b) == Folded::Boolean(a < b),
        integer_binary(spec_lower_binary_op(Token::LEQ)->0, a, b) == Folded::Boolean(a <= b),
        integer_binary(spec_lower_binary_op(Token::GTR)->0, a, b) == Folded::Boolean(a > b),
        integer_binary(spec_lower_binary_op(Token::GEQ)->0, a, b) == Folded::Boolean(a >= b),
        integer_binary(spec_lower_binary_op(Token::XOR)->0, a, a) == Folded::Integer(0),
        integer_binary(spec_lower_binary_op(Token::OR)->0, a, a) == Folded::Integer(a),
        integer_binary(spec_lower_binary_op(Token::AND)->0, a, a) == Folded::Integer(a),
{
    lemma_bitwise_self(a);
}

} // verus!
