//! Exact values of Go constants and their representability in types.

use vstd::prelude::*;
use vstd::string::StringSliceAdditionalSpecFns;
use vstd::utf8::encode_utf8;

use crate::bignum::{
    big_div, big_from_u64, big_lt, big_mul, big_neg, big_rem, big_shl, big_sub, big_to_decimal,
    int_spelling, parse_accepts, parse_big, parse_value, pow2, trunc_div, trunc_rem, BigNum,
};
use crate::exact::{big_copy, ExactNumber};
use crate::types::{ComplexTy, FloatTy, IntTy, Ty, UintTy, UntypedTy};

verus! {

/// An exact constant value.  Integers are held as their decimal spelling.
#[derive(Debug)]
pub enum ConstValue {
    Bool(bool),
    Int(String),
    Float(ExactNumber),
    Complex { real: ExactNumber, imag: ExactNumber },
    String(Vec<u8>),
}

/// A decimal integer spelling that `BigInt::parse_bytes` accepts.
pub open spec fn int_spelling_ok(s: Seq<char>) -> bool {
    parse_accepts(encode_utf8(s), 10)
}

/// The integer that a decimal spelling denotes.
pub open spec fn int_spelling_value(s: Seq<char>) -> int {
    parse_value(encode_utf8(s), 10)
}

/// The inclusive range of an integer type's values.
pub open spec fn int_ty_range(ty: Ty) -> (int, int) {
    match ty {
        Ty::Int(IntTy::Int8) => (-128, 127),
        Ty::Int(IntTy::Int16) => (-32768, 32767),
        Ty::Int(IntTy::Int32) => (-2147483648, 2147483647),
        Ty::Int(_) => (-9223372036854775808, 9223372036854775807),
        Ty::Uint(UintTy::Uint8) => (0, 255),
        Ty::Uint(UintTy::Uint16) => (0, 65535),
        Ty::Uint(UintTy::Uint32) => (0, 4294967295),
        Ty::Uint(_) => (0, 18446744073709551615),
        _ => (0, -1),
    }
}

/// The largest finite value of a floating-point width, as (mantissa, exponent).
pub open spec fn float_max(ty: FloatTy) -> (int, nat) {
    match ty {
        FloatTy::Float32 => (16777215, 104),
        FloatTy::Float64 => (9007199254740991, 971),
    }
}

/// The fraction `n/d` (with `d > 0`) lies within the finite range of `ty`.
pub open spec fn within_float(n: int, d: int, ty: FloatTy) -> bool {
    let bound = float_max(ty).0 * pow2(float_max(ty).1);
    -(bound * d) <= n <= bound * d
}

impl ConstValue {
    pub open spec fn wf(&self) -> bool {
        match self {
            ConstValue::Int(s) => int_spelling_ok(s@),
            ConstValue::Float(x) => x.wf(),
            ConstValue::Complex { real: re, imag: im } => re.wf() && im.wf(),
            _ => true,
        }
    }

    /// The real value of a numeric constant as a fraction, when it has one.
    pub open spec fn spec_exact_number(&self) -> Option<(int, int)> {
        match self {
            ConstValue::Int(s) => if int_spelling_ok(s@) {
                Some((int_spelling_value(s@), 1))
            } else {
                None
            },
            ConstValue::Float(x) => Some((x.num(), x.den())),
            ConstValue::Complex { real: re, imag: im } => if im.num() == 0 {
                Some((re.num(), re.den()))
            } else {
                None
            },
            _ => None,
        }
    }

    /// The integer value of a numeric constant, when it is integral.
    pub open spec fn spec_integer_value(&self) -> Option<int> {
        match self.spec_exact_number() {
            Some((n, d)) => if n % d == 0 { Some(n / d) } else { None },
            None => None,
        }
    }

    /// The complex components of a numeric constant.
    pub open spec fn spec_components(&self) -> Option<((int, int), (int, int))> {
        match self {
            ConstValue::Int(s) => if int_spelling_ok(s@) {
                Some(((int_spelling_value(s@), 1), (0, 1)))
            } else {
                None
            },
            ConstValue::Float(x) => Some(((x.num(), x.den()), (0, 1))),
            ConstValue::Complex { real: re, imag: im } => Some(
                ((re.num(), re.den()), (im.num(), im.den())),
            ),
            _ => None,
        }
    }

    /// Go's representability of a constant by a type's underlying type.
    pub open spec fn spec_representable(&self, ty: Ty) -> bool {
        match ty.spec_underlying() {
            Ty::Bool | Ty::Untyped(UntypedTy::Bool) => self is Bool,
            Ty::String | Ty::Untyped(UntypedTy::String) => self is String,
            Ty::Int(_) | Ty::Uint(_) => match self.spec_integer_value() {
                Some(v) => int_ty_range(ty.spec_underlying()).0 <= v <= int_ty_range(
                    ty.spec_underlying(),
                ).1,
                None => false,
            },
            Ty::Untyped(UntypedTy::Int) | Ty::Untyped(UntypedTy::Rune) => self.spec_integer_value() is Some,
            Ty::Float(k) => match self.spec_exact_number() {
                Some((n, d)) => within_float(n, d, k),
                None => false,
            },
            Ty::Untyped(UntypedTy::Float) => self.spec_exact_number() is Some,
            Ty::Complex(k) => match self.spec_components() {
                Some((re, im)) => within_float(re.0, re.1, complex_component(k)) && within_float(
                    im.0,
                    im.1,
                    complex_component(k),
                ),
                None => false,
            },
            Ty::Untyped(UntypedTy::Complex) => self.spec_components() is Some,
            _ => false,
        }
    }
}

/// The floating-point width of a complex type's components.
pub open spec fn complex_component(k: ComplexTy) -> FloatTy {
    match k {
        ComplexTy::Complex64 => FloatTy::Float32,
        ComplexTy::Complex128 => FloatTy::Float64,
    }
}

/// The integer that a decimal constant spelling denotes.
pub fn parse_int_spelling(s: &String) -> (r: Option<BigNum>)
    ensures
        r is Some <==> int_spelling_ok(s@),
        r matches Some(n) ==> n.wf() && n.value() == int_spelling_value(s@),
{
    parse_big(s.as_str().as_bytes(), 10)
}

impl ConstValue {
    /// A copy of the value.
    pub fn duplicate(&self) -> (r: ConstValue)
        ensures
            r.same_constant(*self),
            r.spec_exact_number() == self.spec_exact_number(),
            r.spec_components() == self.spec_components(),
            self.wf() ==> r.wf(),
            r is Bool <==> self is Bool,
            r is Int <==> self is Int,
            r is Float <==> self is Float,
            r is Complex <==> self is Complex,
            r is String <==> self is String,
            self matches ConstValue::Bool(b) ==> r == ConstValue::Bool(*b),
            self matches ConstValue::Int(s) ==> r matches ConstValue::Int(t) && t@ == s@,
            self matches ConstValue::String(s) ==> r matches ConstValue::String(t) && t@ == s@,
    {
        match self {
            ConstValue::Bool(b) => ConstValue::Bool(*b),
            ConstValue::Int(s) => {
                let t = s.clone();
                ConstValue::Int(t)
            },
            ConstValue::Float(x) => ConstValue::Float(x.duplicate()),
            ConstValue::Complex { real: re, imag: im } => ConstValue::Complex {
                real: re.duplicate(),
                imag: im.duplicate(),
            },
            ConstValue::String(s) => {
                let t = s.clone();
                assert(t@ =~= s@);
                ConstValue::String(t)
            },
        }
    }

    /// The real value of a numeric constant, when it has one.
    pub fn exact_number(&self) -> (r: Option<ExactNumber>)
        requires
            self.wf(),
        ensures
            r is Some <==> self.spec_exact_number() is Some,
            r matches Some(x) ==> x.wf() && self.spec_exact_number() == Some((x.num(), x.den())),
    {
        match self {
            ConstValue::Int(s) => match parse_int_spelling(s) {
                Some(n) => Some(ExactNumber::from_integer(n)),
                None => None,
            },
            ConstValue::Float(x) => Some(x.duplicate()),
            ConstValue::Complex { real: re, imag: im } => if im.is_zero() {
                Some(re.duplicate())
            } else {
                None
            },
            _ => None,
        }
    }

    /// The constant as an integer constant, when its value is integral.
    pub fn exact_integer(&self) -> (r: Option<ConstValue>)
        requires
            self.wf(),
        ensures
            r is Some <==> self.spec_integer_value() is Some,
            r matches Some(c) ==> c matches ConstValue::Int(s) && s@ == int_spelling(
                self.spec_integer_value()->0,
            ),
    {
        let x = match self.exact_number() {
            Some(x) => x,
            None => return None,
        };
        let remainder = big_rem(&x.numerator, &x.denominator);
        let zero = big_from_u64(0);
        proof {
            vstd::arithmetic::div_mod::lemma_fundamental_div_mod(x.num(), x.den());
        }
        if !crate::bignum::big_eq(&remainder, &zero) {
            proof {
                lemma_trunc_rem_zero(x.num(), x.den());
            }
            return None;
        }
        proof {
            lemma_trunc_rem_zero(x.num(), x.den());
        }
        let quotient = big_div(&x.numerator, &x.denominator);
        Some(ConstValue::Int(big_to_decimal(&quotient)))
    }
}

/// For a positive divisor, the truncated remainder is zero exactly when the
/// Euclidean one is, and then the quotients agree.
pub proof fn lemma_trunc_rem_zero(n: int, d: int)
    requires
        d > 0,
    ensures
        (trunc_rem(n, d) == 0) == (n % d == 0),
        n % d == 0 ==> trunc_div(n, d) == n / d,
{
    vstd::arithmetic::div_mod::lemma_fundamental_div_mod(n, d);
    let m = if n < 0 { -n } else { n };
    vstd::arithmetic::div_mod::lemma_fundamental_div_mod(m, d);
    if n < 0 {
        let q = m / d;
        let r = m % d;
        assert(m == d * q + r);
        assert(trunc_div(n, d) == -q);
        assert(trunc_rem(n, d) == n + d * q) by (nonlinear_arith)
            requires
                trunc_div(n, d) == -q,
                trunc_rem(n, d) == n - d * trunc_div(n, d),
        ;
        assert(trunc_rem(n, d) == -r);
        if r == 0 {
            assert(n == d * (-q)) by (nonlinear_arith)
                requires
                    -n == d * q,
            ;
            vstd::arithmetic::div_mod::lemma_mod_multiples_basic(-q, d);
            assert((-q) * d == d * (-q)) by (nonlinear_arith);
            vstd::arithmetic::div_mod::lemma_div_multiples_vanish(-q, d);
        } else {
            if n % d == 0 {
                let k = n / d;
                assert(n == d * k);
                assert(m == d * (-k)) by (nonlinear_arith)
                    requires
                        n == d * k,
                        m == -n,
                ;
                vstd::arithmetic::div_mod::lemma_mod_multiples_basic(-k, d);
                assert((-k) * d == d * (-k)) by (nonlinear_arith);
                assert(false);
            }
        }
    } else {
        assert(trunc_div(n, d) == n / d);
        assert(trunc_rem(n, d) == n % d);
    }
}


/// Whether an integer constant of value `k` is representable by a type.
pub open spec fn integer_representable(k: int, ty: Ty) -> bool {
    match ty.spec_underlying() {
        Ty::Int(_) | Ty::Uint(_) => int_ty_range(ty.spec_underlying()).0 <= k <= int_ty_range(ty.spec_underlying()).1,
        Ty::Untyped(UntypedTy::Int)
        | Ty::Untyped(UntypedTy::Rune)
        | Ty::Untyped(UntypedTy::Float)
        | Ty::Untyped(UntypedTy::Complex) => true,
        Ty::Float(f) => within_float(k, 1, f),
        Ty::Complex(c) => within_float(k, 1, complex_component(c)) && within_float(0, 1, complex_component(c)),
        _ => false,
    }
}

/// The representability of an integer constant depends on its value alone.
pub proof fn lemma_integer_representable(c: ConstValue, k: int, ty: Ty)
    requires
        c matches ConstValue::Int(s) && int_spelling_ok(s@) && int_spelling_value(s@) == k,
    ensures
        c.spec_representable(ty) == integer_representable(k, ty),
{
    assert(c.spec_exact_number() == Some((k, 1int)));
    assert(k % 1 == 0 && k / 1 == k);
    assert(c.spec_integer_value() == Some(k));
}

/// How a type normalizes constants: integer, floating-point, complex, or not at all.
pub enum NumericKind {
    Integer,
    Real,
    Complex,
    Other,
}

pub open spec fn numeric_kind(ty: Ty) -> NumericKind {
    match ty.spec_underlying() {
        Ty::Int(_) | Ty::Uint(_) | Ty::Untyped(UntypedTy::Int) | Ty::Untyped(UntypedTy::Rune) => NumericKind::Integer,
        Ty::Float(_) | Ty::Untyped(UntypedTy::Float) => NumericKind::Real,
        Ty::Complex(_) | Ty::Untyped(UntypedTy::Complex) => NumericKind::Complex,
        _ => NumericKind::Other,
    }
}

/// `r` is `c` in the representation that `ty` uses for its constants.
pub open spec fn normalized_as(c: ConstValue, ty: Ty, r: ConstValue) -> bool {
    match numeric_kind(ty) {
        NumericKind::Integer => match c.spec_integer_value() {
            Some(v) => r matches ConstValue::Int(s) && s@ == int_spelling(v),
            None => r.same_constant(c),
        },
        NumericKind::Real => match c.spec_exact_number() {
            Some((n, d)) => r matches ConstValue::Float(x) && x.wf() && x.num() == n && x.den() == d,
            None => r.same_constant(c),
        },
        NumericKind::Complex => match c.spec_components() {
            Some((re, im)) => r matches ConstValue::Complex { real: a, imag: b } && a.wf() && b.wf()
                && a.num() == re.0 && a.den() == re.1 && b.num() == im.0 && b.den() == im.1,
            None => r.same_constant(c),
        },
        NumericKind::Other => r.same_constant(c),
    }
}

impl ConstValue {
    /// Both constants have the same variant and the same exact content.
    pub open spec fn same_constant(&self, other: ConstValue) -> bool {
        match (*self, other) {
            (ConstValue::Bool(a), ConstValue::Bool(b)) => a == b,
            (ConstValue::Int(a), ConstValue::Int(b)) => a@ == b@,
            (ConstValue::Float(a), ConstValue::Float(b)) => a.num() == b.num() && a.den() == b.den(),
            (ConstValue::Complex { real: a, imag: b }, ConstValue::Complex { real: c, imag: d }) =>
                a.num() == c.num() && a.den() == c.den() && b.num() == d.num() && b.den() == d.den(),
            (ConstValue::String(a), ConstValue::String(b)) => a@ == b@,
            _ => false,
        }
    }
}

/// The bounds of an integer type.
fn int_ty_bounds(ty: &Ty) -> (r: (BigNum, BigNum))
    requires
        ty is Int || ty is Uint,
    ensures
        r.0.value() == int_ty_range(*ty).0,
        r.1.value() == int_ty_range(*ty).1,
{
    match ty {
        Ty::Int(IntTy::Int8) => (big_neg(&big_from_u64(128)), big_from_u64(127)),
        Ty::Int(IntTy::Int16) => (big_neg(&big_from_u64(32768)), big_from_u64(32767)),
        Ty::Int(IntTy::Int32) => (big_neg(&big_from_u64(2147483648)), big_from_u64(2147483647)),
        Ty::Int(_) => (
            big_neg(&big_from_u64(9223372036854775808)),
            big_from_u64(9223372036854775807),
        ),
        Ty::Uint(UintTy::Uint8) => (big_from_u64(0), big_from_u64(255)),
        Ty::Uint(UintTy::Uint16) => (big_from_u64(0), big_from_u64(65535)),
        Ty::Uint(UintTy::Uint32) => (big_from_u64(0), big_from_u64(4294967295)),
        _ => (big_from_u64(0), big_from_u64(18446744073709551615)),
    }
}

/// Whether `n/d` lies within the finite range of a floating-point width.
fn fits_float(n: &BigNum, d: &BigNum, k: FloatTy) -> (r: bool)
    ensures
        r == within_float(n.value(), d.value(), k),
{
    let (mantissa, exponent): (u64, usize) = match k {
        FloatTy::Float32 => (16777215, 104),
        FloatTy::Float64 => (9007199254740991, 971),
    };
    let bound = big_shl(&big_from_u64(mantissa), exponent);
    let limit = big_mul(&bound, d);
    let negative_limit = big_neg(&limit);
    !big_lt(n, &negative_limit) && !big_lt(&limit, n)
}

impl ConstValue {
    /// The complex components of a numeric constant.
    pub fn components(&self) -> (r: Option<(ExactNumber, ExactNumber)>)
        requires
            self.wf(),
        ensures
            r is Some <==> self.spec_components() is Some,
            r matches Some(p) ==> p.0.wf() && p.1.wf() && self.spec_components() == Some(
                ((p.0.num(), p.0.den()), (p.1.num(), p.1.den())),
            ),
    {
        match self {
            ConstValue::Int(s) => match parse_int_spelling(s) {
                Some(n) => Some((ExactNumber::from_integer(n), ExactNumber::zero())),
                None => None,
            },
            ConstValue::Float(x) => Some((x.duplicate(), ExactNumber::zero())),
            ConstValue::Complex { real: re, imag: im } => Some((re.duplicate(), im.duplicate())),
            _ => None,
        }
    }

    /// Go's representability of this constant by `ty`.
    pub fn is_representable_as(&self, ty: &Ty) -> (r: bool)
        requires
            self.wf(),
        ensures
            r == self.spec_representable(*ty),
    {
        let underlying = ty.underlying();
        match underlying {
            Ty::Bool | Ty::Untyped(UntypedTy::Bool) => matches!(self, ConstValue::Bool(_)),
            Ty::String | Ty::Untyped(UntypedTy::String) => matches!(self, ConstValue::String(_)),
            Ty::Int(_) | Ty::Uint(_) => match self.exact_integer() {
                Some(ConstValue::Int(spelling)) => {
                    let value = match parse_int_spelling(&spelling) {
                        Some(v) => v,
                        None => {
                            proof {
                                crate::literals::lemma_int_spelling_roundtrip(
                                    self.spec_integer_value()->0,
                                );
                            }
                            return false;
                        },
                    };
                    proof {
                        crate::literals::lemma_int_spelling_roundtrip(self.spec_integer_value()->0);
                    }
                    let (low, high) = int_ty_bounds(underlying);
                    !big_lt(&value, &low) && !big_lt(&high, &value)
                },
                _ => false,
            },
            Ty::Untyped(UntypedTy::Int) | Ty::Untyped(UntypedTy::Rune) => self.exact_integer().is_some(),
            Ty::Float(k) => match self.exact_number() {
                Some(x) => fits_float(&x.numerator, &x.denominator, *k),
                None => false,
            },
            Ty::Untyped(UntypedTy::Float) => self.exact_number().is_some(),
            Ty::Complex(k) => match self.components() {
                Some((re, im)) => {
                    let width = match k {
                        ComplexTy::Complex64 => FloatTy::Float32,
                        ComplexTy::Complex128 => FloatTy::Float64,
                    };
                    fits_float(&re.numerator, &re.denominator, width) && fits_float(
                        &im.numerator,
                        &im.denominator,
                        width,
                    )
                },
                None => false,
            },
            Ty::Untyped(UntypedTy::Complex) => self.components().is_some(),
            _ => false,
        }
    }

    /// This constant in the representation that `ty` uses: integers for
    /// integer types, exact reals for floating-point types, and component
    /// pairs for complex types, where the value allows it.
    pub fn normalized_for(&self, ty: &Ty) -> (r: ConstValue)
        requires
            self.wf(),
        ensures
            r.wf(),
            normalized_as(*self, *ty, r),
    {
        match ty.underlying() {
            Ty::Int(_) | Ty::Uint(_) | Ty::Untyped(UntypedTy::Int) | Ty::Untyped(UntypedTy::Rune) => {
                match self.exact_integer() {
                    Some(c) => {
                        proof {
                            crate::literals::lemma_int_spelling_roundtrip(
                                self.spec_integer_value()->0,
                            );
                        }
                        c
                    },
                    None => self.duplicate(),
                }
            },
            Ty::Float(_) | Ty::Untyped(UntypedTy::Float) => match self.exact_number() {
                Some(x) => ConstValue::Float(x),
                None => self.duplicate(),
            },
            Ty::Complex(_) | Ty::Untyped(UntypedTy::Complex) => match self.components() {
                Some((re, im)) => ConstValue::Complex { real: re, imag: im },
                None => self.duplicate(),
            },
            _ => self.duplicate(),
        }
    }
}

} // verus!
