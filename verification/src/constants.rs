//! Evaluation of package and local Go constant expressions.

use vstd::prelude::*;

use vstd::string::StringSliceAdditionalSpecFns;
use vstd::utf8::encode_utf8;

use crate::bignum::{big_from_u64, big_neg, big_to_decimal, int_spelling};
use crate::constant::{int_spelling_value, normalized_as, parse_int_spelling, ConstValue};
use crate::constant_ops::{
    constant_binary, fold_constant_binary, fold_untyped_constant_shift, folded_as, integer_binary,
    Folded,
};
use crate::exact::{float_spelling_ok, float_spelling_value, rat_neg, ExactNumber};
use crate::expressions::{
    exact_common_operand_type, is_assignable, lower_binary_op, normalize_constant_for_type,
    spec_exact_common_operand_type, spec_is_assignable, spec_lower_binary_op,
};
use crate::hir::{BinaryOp, Diagnostic, DiagnosticKind, SourceRef};
use crate::literals::{
    go_imaginary, go_integer_bytes, go_rune, go_string, parse_go_imaginary, parse_go_integer,
    parse_go_rune, parse_go_string,
};
use crate::syntax::{ExprSyntax, ExprSyntaxKind, Token};
use crate::types::{ComplexTy, FloatTy, IntTy, Ty, UintTy, UntypedTy};

verus! {

/// A named constant with its type and value.
pub struct ConstantSymbol {
    pub name: String,
    pub ty: Ty,
    pub value: ConstValue,
}

/// A named type alias.
pub struct TypeAlias {
    pub name: String,
    pub ty: Ty,
}

/// The constants that a constant expression may name; no name occurs twice.
pub struct ConstantTable {
    pub entries: Vec<ConstantSymbol>,
}

/// The type aliases that a constant conversion may name; no name occurs twice.
pub struct TypeTable {
    pub entries: Vec<TypeAlias>,
}

impl ConstantTable {
    pub open spec fn wf(&self) -> bool {
        &&& forall|i: int| 0 <= i < self.entries@.len() ==> (#[trigger] self.entries@[i]).value.wf()
        &&& forall|i: int, j: int|
            0 <= i < j < self.entries@.len() ==> (#[trigger] self.entries@[i]).name@
                != (#[trigger] self.entries@[j]).name@
    }

    /// The constant of that name, with its type and value.
    pub open spec fn spec_lookup(&self, name: Seq<char>) -> Option<(Ty, ConstValue)> {
        if exists|i: int| 0 <= i < self.entries@.len() && (#[trigger] self.entries@[i]).name@ == name {
            let i = choose|i: int| 0 <= i < self.entries@.len() && (#[trigger] self.entries@[i]).name@ == name;
            Some((self.entries@[i].ty, self.entries@[i].value))
        } else {
            None
        }
    }

    /// Looks a constant up by name.
    pub fn lookup(&self, name: &String) -> (r: Option<(Ty, ConstValue)>)
        requires
            self.wf(),
        ensures
            r is None <==> self.spec_lookup(name@) is None,
            r matches Some((t, c)) ==> (self.spec_lookup(name@) matches Some((t2, c2)) && t == t2
                && c.same_constant(c2) && c.wf()),
    {
        let mut i: usize = 0;
        while i < self.entries.len()
            invariant
                self.wf(),
                i <= self.entries@.len(),
                forall|j: int| 0 <= j < i ==> (#[trigger] self.entries@[j]).name@ != name@,
            decreases self.entries@.len() - i,
        {
            let entry = &self.entries[i];
            if entry.name == *name {
                proof {
                    let k = choose|k: int| 0 <= k < self.entries@.len() && (#[trigger] self.entries@[k]).name@ == name@;
                    if k != i {
                        if k < i {
                            assert(self.entries@[k].name@ != self.entries@[i as int].name@);
                        } else {
                            assert(self.entries@[i as int].name@ != self.entries@[k].name@);
                        }
                    }
                    assert(self.entries@[i as int].value.wf());
                }
                let value = entry.value.duplicate();
                return Some((entry.ty.clone(), value));
            }
            i += 1;
        }
        None
    }
}

impl TypeTable {
    pub open spec fn wf(&self) -> bool {
        forall|i: int, j: int|
            0 <= i < j < self.entries@.len() ==> (#[trigger] self.entries@[i]).name@
                != (#[trigger] self.entries@[j]).name@
    }

    /// The type alias of that name.
    pub open spec fn spec_lookup(&self, name: Seq<char>) -> Option<Ty> {
        if exists|i: int| 0 <= i < self.entries@.len() && (#[trigger] self.entries@[i]).name@ == name {
            let i = choose|i: int| 0 <= i < self.entries@.len() && (#[trigger] self.entries@[i]).name@ == name;
            Some(self.entries@[i].ty)
        } else {
            None
        }
    }

    /// A table with no aliases.
    pub fn empty() -> (r: TypeTable)
        ensures
            r.wf(),
            r.entries@.len() == 0,
    {
        TypeTable { entries: Vec::new() }
    }

    /// Looks a type alias up by name.
    pub fn lookup(&self, name: &String) -> (r: Option<Ty>)
        requires
            self.wf(),
        ensures
            r == self.spec_lookup(name@),
    {
        let mut i: usize = 0;
        while i < self.entries.len()
            invariant
                self.wf(),
                i <= self.entries@.len(),
                forall|j: int| 0 <= j < i ==> (#[trigger] self.entries@[j]).name@ != name@,
            decreases self.entries@.len() - i,
        {
            let entry = &self.entries[i];
            if entry.name == *name {
                proof {
                    let k = choose|k: int| 0 <= k < self.entries@.len() && (#[trigger] self.entries@[k]).name@ == name@;
                    if k != i {
                        if k < i {
                            assert(self.entries@[k].name@ != self.entries@[i as int].name@);
                        } else {
                            assert(self.entries@[i as int].name@ != self.entries@[k].name@);
                        }
                    }
                }
                return Some(entry.ty.clone());
            }
            i += 1;
        }
        None
    }
}

/// The predeclared Go type that a name denotes in a constant conversion.
pub open spec fn spec_predeclared_constant_type(name: Seq<char>) -> Option<Ty> {
    if name == "bool"@ {
        Some(Ty::Bool)
    } else if name == "string"@ {
        Some(Ty::String)
    } else if name == "int"@ {
        Some(Ty::Int(IntTy::Int))
    } else if name == "int8"@ {
        Some(Ty::Int(IntTy::Int8))
    } else if name == "int16"@ {
        Some(Ty::Int(IntTy::Int16))
    } else if name == "int32"@ || name == "rune"@ {
        Some(Ty::Int(IntTy::Int32))
    } else if name == "int64"@ {
        Some(Ty::Int(IntTy::Int64))
    } else if name == "uint"@ {
        Some(Ty::Uint(UintTy::Uint))
    } else if name == "uint8"@ || name == "byte"@ {
        Some(Ty::Uint(UintTy::Uint8))
    } else if name == "uint16"@ {
        Some(Ty::Uint(UintTy::Uint16))
    } else if name == "uint32"@ {
        Some(Ty::Uint(UintTy::Uint32))
    } else if name == "uint64"@ {
        Some(Ty::Uint(UintTy::Uint64))
    } else if name == "uintptr"@ {
        Some(Ty::Uint(UintTy::Uintptr))
    } else if name == "float32"@ {
        Some(Ty::Float(FloatTy::Float32))
    } else if name == "float64"@ {
        Some(Ty::Float(FloatTy::Float64))
    } else if name == "complex64"@ {
        Some(Ty::Complex(ComplexTy::Complex64))
    } else if name == "complex128"@ {
        Some(Ty::Complex(ComplexTy::Complex128))
    } else {
        None
    }
}

/// Whether a name spells a given word.
fn spells(name: &String, word: &str) -> (r: bool)
    ensures
        r == (name@ == word@),
{
    *name == String::from_str(word)
}

/// The predeclared Go type that a name denotes in a constant conversion.
pub fn predeclared_constant_type(name: &String) -> (r: Option<Ty>)
    ensures
        r == spec_predeclared_constant_type(name@),
{
    if spells(name, "bool") {
        Some(Ty::Bool)
    } else if spells(name, "string") {
        Some(Ty::String)
    } else if spells(name, "int") {
        Some(Ty::Int(IntTy::Int))
    } else if spells(name, "int8") {
        Some(Ty::Int(IntTy::Int8))
    } else if spells(name, "int16") {
        Some(Ty::Int(IntTy::Int16))
    } else if spells(name, "int32") || spells(name, "rune") {
        Some(Ty::Int(IntTy::Int32))
    } else if spells(name, "int64") {
        Some(Ty::Int(IntTy::Int64))
    } else if spells(name, "uint") {
        Some(Ty::Uint(UintTy::Uint))
    } else if spells(name, "uint8") || spells(name, "byte") {
        Some(Ty::Uint(UintTy::Uint8))
    } else if spells(name, "uint16") {
        Some(Ty::Uint(UintTy::Uint16))
    } else if spells(name, "uint32") {
        Some(Ty::Uint(UintTy::Uint32))
    } else if spells(name, "uint64") {
        Some(Ty::Uint(UintTy::Uint64))
    } else if spells(name, "uintptr") {
        Some(Ty::Uint(UintTy::Uintptr))
    } else if spells(name, "float32") {
        Some(Ty::Float(FloatTy::Float32))
    } else if spells(name, "float64") {
        Some(Ty::Float(FloatTy::Float64))
    } else if spells(name, "complex64") {
        Some(Ty::Complex(ComplexTy::Complex64))
    } else if spells(name, "complex128") {
        Some(Ty::Complex(ComplexTy::Complex128))
    } else {
        None
    }
}

/// The operand types that each constant operator accepts, judged on the
/// default type's underlying type.
pub open spec fn constant_operator_valid(op: BinaryOp, ty: Ty) -> bool {
    let t = ty.spec_default_typed().spec_underlying();
    let ordered = t.spec_is_integer() || t is Float || t == Ty::String;
    match op {
        BinaryOp::LogicalAnd | BinaryOp::LogicalOr => t == Ty::Bool,
        BinaryOp::Equal | BinaryOp::NotEqual => t == Ty::Bool || t.spec_is_numeric() || t == Ty::String,
        BinaryOp::Less
        | BinaryOp::LessEqual
        | BinaryOp::Greater
        | BinaryOp::GreaterEqual
        | BinaryOp::Min
        | BinaryOp::Max => ordered,
        BinaryOp::Add => t.spec_is_numeric() || t == Ty::String,
        BinaryOp::Sub | BinaryOp::Mul | BinaryOp::Div => t.spec_is_numeric(),
        BinaryOp::Rem
        | BinaryOp::BitAnd
        | BinaryOp::BitOr
        | BinaryOp::BitXor
        | BinaryOp::Shl
        | BinaryOp::Shr
        | BinaryOp::AndNot => t.spec_is_integer(),
        BinaryOp::Complex => t is Int || t is Uint || t is Float,
    }
}

/// Checks that a constant operator applies to operands of a type.
pub fn validate_constant_binary_operator(op: BinaryOp, ty: &Ty, source: SourceRef) -> (r: Result<
    (),
    Diagnostic,
>)
    ensures
        r is Ok <==> constant_operator_valid(op, *ty),
        r matches Err(d) ==> d.kind == DiagnosticKind::Semantic && d.source == Some(source),
{
    let defaulted = ty.default_typed();
    let t = defaulted.underlying();
    let ordered = t.is_integer() || matches!(t, Ty::Float(_)) || matches!(t, Ty::String);
    let valid = match op {
        BinaryOp::LogicalAnd | BinaryOp::LogicalOr => matches!(t, Ty::Bool),
        BinaryOp::Equal | BinaryOp::NotEqual => matches!(t, Ty::Bool) || t.is_numeric() || matches!(
            t,
            Ty::String
        ),
        BinaryOp::Less
        | BinaryOp::LessEqual
        | BinaryOp::Greater
        | BinaryOp::GreaterEqual
        | BinaryOp::Min
        | BinaryOp::Max => ordered,
        BinaryOp::Add => t.is_numeric() || matches!(t, Ty::String),
        BinaryOp::Sub | BinaryOp::Mul | BinaryOp::Div => t.is_numeric(),
        BinaryOp::Rem
        | BinaryOp::BitAnd
        | BinaryOp::BitOr
        | BinaryOp::BitXor
        | BinaryOp::Shl
        | BinaryOp::Shr
        | BinaryOp::AndNot => t.is_integer(),
        BinaryOp::Complex => matches!(t, Ty::Int(_) | Ty::Uint(_) | Ty::Float(_)),
    };
    if valid {
        Ok(())
    } else {
        Err(Diagnostic::semantic("operator is invalid for this constant type", source))
    }
}

/// The outcome of evaluating a constant expression: its type and value, or
/// the kind of the diagnostic that rejects it.
pub enum Evaluation {
    Value(Ty, ConstValue),
    Failure(DiagnosticKind),
}

pub open spec fn evaluation_of(r: Result<(Ty, ConstValue), Diagnostic>) -> Evaluation {
    match r {
        Ok((t, c)) => Evaluation::Value(t, c),
        Err(d) => Evaluation::Failure(d.kind),
    }
}

/// A sub-evaluation that an outcome rests on.
pub open spec fn outcome(a: Evaluation) -> bool {
    true
}

/// `out` is the integer `v` of type `ty`, spelled in decimal.
pub open spec fn integer_outcome(out: Evaluation, ty: Ty, v: int) -> bool {
    match out {
        Evaluation::Value(t, ConstValue::Int(s)) => t == ty && s@ == int_spelling(v),
        _ => false,
    }
}

/// `out` is the evaluation of a literal.
pub open spec fn literal_evaluation(token: Token, spelling: Seq<char>, out: Evaluation) -> bool {
    let bytes = encode_utf8(spelling);
    match token {
        Token::INT => match go_integer_bytes(bytes) {
            Some(v) => integer_outcome(out, Ty::Untyped(UntypedTy::Int), v),
            None => out == Evaluation::Failure(DiagnosticKind::Semantic),
        },
        Token::FLOAT => if float_spelling_ok(bytes) {
            match out {
                Evaluation::Value(t, ConstValue::Float(x)) => t == Ty::Untyped(UntypedTy::Float) && x.wf()
                    && x.equals(float_spelling_value(bytes).0, float_spelling_value(bytes).1),
                _ => false,
            }
        } else {
            out == Evaluation::Failure(DiagnosticKind::Semantic)
        },
        Token::IMAG => match go_imaginary(spelling) {
            Some((n, d)) => match out {
                Evaluation::Value(t, ConstValue::Complex { real: a, imag: b }) => t == Ty::Untyped(
                    UntypedTy::Complex,
                ) && a.wf() && a.num() == 0 && a.den() == 1 && b.wf() && b.equals(n, d),
                _ => false,
            },
            None => out == Evaluation::Failure(DiagnosticKind::Semantic),
        },
        Token::STRING => match go_string(spelling) {
            Some(v) => match out {
                Evaluation::Value(t, ConstValue::String(w)) => t == Ty::Untyped(UntypedTy::String) && w@ == v,
                _ => false,
            },
            None => out == Evaluation::Failure(DiagnosticKind::Semantic),
        },
        Token::CHAR => match go_rune(spelling) {
            Some(v) => integer_outcome(out, Ty::Untyped(UntypedTy::Rune), v as int),
            None => out == Evaluation::Failure(DiagnosticKind::Semantic),
        },
        _ => out == Evaluation::Failure(DiagnosticKind::Unsupported),
    }
}

/// `out` is the evaluation of an identifier.
pub open spec fn ident_evaluation(name: Seq<char>, constants: ConstantTable, iota: u64, out: Evaluation) -> bool {
    match constants.spec_lookup(name) {
        Some((t, c)) => out matches Evaluation::Value(t2, c2) && t2 == t && c2.same_constant(c),
        None => if name == "true"@ || name == "false"@ {
            out == Evaluation::Value(Ty::Untyped(UntypedTy::Bool), ConstValue::Bool(name == "true"@))
        } else if name == "iota"@ {
            integer_outcome(out, Ty::Untyped(UntypedTy::Int), iota as int)
        } else {
            out == Evaluation::Failure(DiagnosticKind::Semantic)
        },
    }
}

/// `out` is `v` converted to `ty`, or the rejection of a value that `ty`
/// cannot represent.
pub open spec fn normalized_evaluation(v: ConstValue, ty: Ty, out: Evaluation) -> bool {
    if v.spec_representable(ty) {
        out matches Evaluation::Value(t, c) && t == ty && c.wf() && normalized_as(v, ty, c)
    } else {
        out == Evaluation::Failure(DiagnosticKind::Semantic)
    }
}

/// `out` follows from a folding outcome converted to `ty`; an operation that
/// does not fold is rejected with `not_folded`.
pub open spec fn folded_evaluation(f: Folded, ty: Ty, not_folded: DiagnosticKind, out: Evaluation) -> bool {
    match f {
        Folded::Failure(k) => out == Evaluation::Failure(k),
        Folded::NotFolded => out == Evaluation::Failure(not_folded),
        _ => exists|v: ConstValue|
            #[trigger] folded_as(f, ConstValue::Bool(false), Ok(Some(v))) && v.wf()
                && normalized_evaluation(v, ty, out),
    }
}

/// Operators whose result is an untyped boolean.
pub open spec fn is_comparison(op: BinaryOp) -> bool {
    match op {
        BinaryOp::Equal
        | BinaryOp::NotEqual
        | BinaryOp::Less
        | BinaryOp::LessEqual
        | BinaryOp::Greater
        | BinaryOp::GreaterEqual
        | BinaryOp::LogicalAnd
        | BinaryOp::LogicalOr => true,
        _ => false,
    }
}

/// `out` is the evaluation of a shift whose left operand is untyped.
pub open spec fn shift_evaluation(op: BinaryOp, left: ConstValue, right: ConstValue, out: Evaluation) -> bool {
    match (left.spec_integer_value(), right.spec_integer_value()) {
        (Some(a), Some(b)) => match integer_binary(op, a, b) {
            Folded::Integer(v) => integer_outcome(out, Ty::Untyped(UntypedTy::Int), v),
            Folded::Failure(k) => out == Evaluation::Failure(k),
            _ => false,
        },
        _ => out == Evaluation::Failure(DiagnosticKind::Semantic),
    }
}

/// `out` is the evaluation of a binary operator token on two evaluated
/// operands.
pub open spec fn binary_evaluation(
    token: Token,
    lt: Ty,
    lc: ConstValue,
    rt: Ty,
    rc: ConstValue,
    out: Evaluation,
) -> bool {
    match spec_lower_binary_op(token) {
        None => out == Evaluation::Failure(DiagnosticKind::Unsupported),
        Some(op) => if (op == BinaryOp::Shl || op == BinaryOp::Shr) && lt is Untyped && (
        rt.spec_is_integer() || rt is Untyped) {
            shift_evaluation(op, lc, rc, out)
        } else {
            match spec_exact_common_operand_type(lt, rt) {
                None => out == Evaluation::Failure(DiagnosticKind::Semantic),
                Some(ot) => if !constant_operator_valid(op, ot) || !lc.spec_representable(ot)
                    || !rc.spec_representable(ot) {
                    out == Evaluation::Failure(DiagnosticKind::Semantic)
                } else {
                    exists|l2: ConstValue, r2: ConstValue|
                        #![trigger normalized_as(lc, ot, l2), normalized_as(rc, ot, r2)]
                        normalized_as(lc, ot, l2) && normalized_as(rc, ot, r2) && l2.wf() && r2.wf()
                            && folded_evaluation(
                            constant_binary(op, l2, r2),
                            if is_comparison(op) {
                                Ty::Untyped(UntypedTy::Bool)
                            } else {
                                ot
                            },
                            DiagnosticKind::Unsupported,
                            out,
                        )
                },
            }
        },
    }
}

/// The folding of a unary operator token on a constant.
pub open spec fn syntax_unary(token: Token, c: ConstValue) -> Folded {
    match (token, c) {
        (Token::ADD, _) => Folded::Unchanged,
        (Token::SUB, ConstValue::Int(s)) => Folded::Integer(-int_spelling_value(s@)),
        (Token::SUB, ConstValue::Float(x)) => Folded::Real(rat_neg(x.value())),
        (Token::SUB, ConstValue::Complex { real: a, imag: b }) => Folded::Complex(
            rat_neg(a.value()),
            rat_neg(b.value()),
        ),
        (Token::NOT, ConstValue::Bool(b)) => Folded::Boolean(!b),
        _ => Folded::Failure(DiagnosticKind::Unsupported),
    }
}

/// `out` is the evaluation of a unary operator token on an evaluated operand.
pub open spec fn unary_evaluation(token: Token, t: Ty, c: ConstValue, out: Evaluation) -> bool {
    match syntax_unary(token, c) {
        Folded::Failure(k) => out == Evaluation::Failure(k),
        f => exists|v: ConstValue|
            #[trigger] folded_as(f, c, Ok(Some(v))) && v.wf() && normalized_evaluation(v, t, out),
    }
}

/// `out` is a constant conversion of an evaluated argument to `target`.
pub open spec fn conversion_evaluation(target: Ty, a: Evaluation, out: Evaluation) -> bool {
    match a {
        Evaluation::Failure(k) => out == Evaluation::Failure(k),
        Evaluation::Value(actual, value) => if spec_is_assignable(actual, target)
            && value.spec_representable(target) {
            out matches Evaluation::Value(t, c) && t == target && c.wf() && normalized_as(value, target, c)
        } else {
            out == Evaluation::Failure(DiagnosticKind::Semantic)
        },
    }
}

/// `out` is `len` of an evaluated constant argument.
pub open spec fn len_evaluation(a: Evaluation, out: Evaluation) -> bool {
    match a {
        Evaluation::Failure(k) => out == Evaluation::Failure(k),
        Evaluation::Value(_, ConstValue::String(v)) => integer_outcome(
            out,
            Ty::Untyped(UntypedTy::Int),
            v@.len() as int,
        ),
        _ => out == Evaluation::Failure(DiagnosticKind::Semantic),
    }
}

/// Operand types for which `min` and `max` are defined.
pub open spec fn min_max_ordered(ty: Ty) -> bool {
    (ty.spec_is_numeric() || ty.spec_default_typed().spec_underlying() == Ty::String)
        && !(ty.spec_default_typed().spec_underlying() is Complex)
}

/// `out` is one step of `min` or `max`: the running value `(t, c)` against
/// the next argument's value `(rt, rc)`.
pub open spec fn min_max_step(is_min: bool, t: Ty, c: ConstValue, rt: Ty, rc: ConstValue, out: Evaluation) -> bool {
    match spec_exact_common_operand_type(t, rt) {
        None => out == Evaluation::Failure(DiagnosticKind::Semantic),
        Some(common) => if !min_max_ordered(common) || !c.spec_representable(common)
            || !rc.spec_representable(common) {
            out == Evaluation::Failure(DiagnosticKind::Semantic)
        } else {
            exists|l2: ConstValue, r2: ConstValue|
                #![trigger normalized_as(c, common, l2), normalized_as(rc, common, r2)]
                normalized_as(c, common, l2) && normalized_as(rc, common, r2) && l2.wf() && r2.wf()
                    && folded_evaluation(
                    constant_binary(
                        if is_min {
                            BinaryOp::Min
                        } else {
                            BinaryOp::Max
                        },
                        l2,
                        r2,
                    ),
                    common,
                    DiagnosticKind::Semantic,
                    out,
                )
        },
    }
}

/// The type of a complex constant built from components of a common type.
pub open spec fn complex_type(component: Ty) -> Option<Ty> {
    let u = component.spec_default_typed().spec_underlying();
    if u == Ty::Float(FloatTy::Float32) {
        Some(Ty::Complex(ComplexTy::Complex64))
    } else if (u is Int || u is Uint || u == Ty::Float(FloatTy::Float64)) && component is Untyped {
        Some(Ty::Untyped(UntypedTy::Complex))
    } else if u == Ty::Float(FloatTy::Float64) {
        Some(Ty::Complex(ComplexTy::Complex128))
    } else {
        None
    }
}

/// `out` is `complex` of two evaluated components.
pub open spec fn complex_evaluation(rt: Ty, rc: ConstValue, it: Ty, ic: ConstValue, out: Evaluation) -> bool {
    match spec_exact_common_operand_type(rt, it) {
        None => out == Evaluation::Failure(DiagnosticKind::Semantic),
        Some(ct) => match complex_type(ct) {
            None => out == Evaluation::Failure(DiagnosticKind::Semantic),
            Some(ty) => match (rc.spec_exact_number(), ic.spec_exact_number()) {
                (Some(p), Some(q)) => match out {
                    Evaluation::Value(t, ConstValue::Complex { real: a, imag: b }) => t == ty && a.wf()
                        && b.wf() && a.value() == p && b.value() == q,
                    _ => false,
                },
                _ => out == Evaluation::Failure(DiagnosticKind::Semantic),
            },
        },
    }
}

/// `out` is `real` or `imag` of an evaluated argument.
pub open spec fn component_evaluation(is_real: bool, a: Evaluation, out: Evaluation) -> bool {
    match a {
        Evaluation::Failure(k) => out == Evaluation::Failure(k),
        Evaluation::Value(at, ConstValue::Complex { real: re, imag: im }) => match at {
            Ty::Untyped(_) => out == Evaluation::Value(
                Ty::Untyped(UntypedTy::Float),
                ConstValue::Float(if is_real { re } else { im }),
            ),
            Ty::Complex(ComplexTy::Complex64) => out == Evaluation::Value(
                Ty::Float(FloatTy::Float32),
                ConstValue::Float(if is_real { re } else { im }),
            ),
            Ty::Complex(ComplexTy::Complex128) => out == Evaluation::Value(
                Ty::Float(FloatTy::Float64),
                ConstValue::Float(if is_real { re } else { im }),
            ),
            _ => out == Evaluation::Failure(DiagnosticKind::Semantic),
        },
        _ => out == Evaluation::Failure(DiagnosticKind::Semantic),
    }
}

/// `out` is an evaluation of the constant expression `e`.  Operands are
/// evaluated left to right and the first rejection is the outcome.
pub open spec fn evaluates(e: ExprSyntax, constants: ConstantTable, types: TypeTable, iota: u64, out: Evaluation) -> bool
    decreases e, 3int, 0int,
{
    match e.kind {
        ExprSyntaxKind::Literal { token, spelling } => literal_evaluation(token, spelling@, out),
        ExprSyntaxKind::Ident(ident) => ident_evaluation(ident.name@, constants, iota, out),
        ExprSyntaxKind::Paren(inner) => evaluates(*inner, constants, types, iota, out),
        ExprSyntaxKind::Binary { left, token, right } => exists|a: Evaluation|
            #[trigger] outcome(a) && evaluates(*left, constants, types, iota, a) && match a {
                Evaluation::Failure(k) => out == Evaluation::Failure(k),
                Evaluation::Value(lt, lc) => exists|b: Evaluation|
                    #[trigger] outcome(b) && evaluates(*right, constants, types, iota, b) && match b {
                        Evaluation::Failure(k) => out == Evaluation::Failure(k),
                        Evaluation::Value(rt, rc) => binary_evaluation(token, lt, lc, rt, rc, out),
                    },
            },
        ExprSyntaxKind::Unary { token, expression } => exists|a: Evaluation|
            #[trigger] outcome(a) && evaluates(*expression, constants, types, iota, a) && match a {
                Evaluation::Failure(k) => out == Evaluation::Failure(k),
                Evaluation::Value(t, c) => unary_evaluation(token, t, c, out),
            },
        ExprSyntaxKind::Call { callee, arguments, spread } => call_evaluation(
            *callee,
            arguments@,
            spread,
            constants,
            types,
            iota,
            out,
        ),
        _ => out == Evaluation::Failure(DiagnosticKind::Unsupported),
    }
}

/// The conversion target that a callee name denotes: a type alias, or else
/// a predeclared type.
pub open spec fn conversion_target(types: TypeTable, name: Seq<char>) -> Option<Ty> {
    match types.spec_lookup(name) {
        Some(t) => Some(t),
        None => spec_predeclared_constant_type(name),
    }
}

/// `out` is an evaluation of a call in a constant expression: a conversion
/// or one of the builtins `len`, `min`, `max`, `complex`, `real`, `imag`.
pub open spec fn call_evaluation(
    callee: ExprSyntax,
    args: Seq<ExprSyntax>,
    spread: bool,
    constants: ConstantTable,
    types: TypeTable,
    iota: u64,
    out: Evaluation,
) -> bool
    decreases args, 2int, 0int,
{
    match callee.kind {
        ExprSyntaxKind::Ident(ident) => {
            let name = ident.name@;
            if spread {
                out == Evaluation::Failure(DiagnosticKind::Semantic)
            } else if conversion_target(types, name) is Some {
                if args.len() != 1 {
                    out == Evaluation::Failure(DiagnosticKind::Semantic)
                } else {
                    exists|a: Evaluation|
                        #[trigger] outcome(a) && evaluates(args[0], constants, types, iota, a) && conversion_evaluation(
                            conversion_target(types, name)->0,
                            a,
                            out,
                        )
                }
            } else if name == "len"@ {
                if args.len() != 1 {
                    out == Evaluation::Failure(DiagnosticKind::Semantic)
                } else {
                    exists|a: Evaluation|
                        #[trigger] outcome(a) && evaluates(args[0], constants, types, iota, a) && len_evaluation(a, out)
                }
            } else if name == "min"@ || name == "max"@ {
                min_max_evaluation(name == "min"@, args, constants, types, iota, out)
            } else if name == "complex"@ {
                complex_call_evaluation(args, constants, types, iota, out)
            } else if name == "real"@ || name == "imag"@ {
                component_call_evaluation(name == "real"@, args, constants, types, iota, out)
            } else {
                out == Evaluation::Failure(DiagnosticKind::Semantic)
            }
        },
        _ => out == Evaluation::Failure(DiagnosticKind::Semantic),
    }
}

/// `out` is `min` (or `max`) of the arguments, evaluated in order up to the
/// first rejection.
pub open spec fn min_max_evaluation(
    is_min: bool,
    args: Seq<ExprSyntax>,
    constants: ConstantTable,
    types: TypeTable,
    iota: u64,
    out: Evaluation,
) -> bool
    decreases args, 1int, 0int,
{
    if args.len() == 0 {
        out == Evaluation::Failure(DiagnosticKind::Semantic)
    } else {
        exists|a: Evaluation|
            #[trigger] outcome(a) && evaluates(args[0], constants, types, iota, a) && match a {
                Evaluation::Failure(k) => out == Evaluation::Failure(k),
                Evaluation::Value(_, _) => min_max_from(is_min, args, 1, a, constants, types, iota, out),
            }
    }
}

/// `out` is `min` (or `max`) of the running value `running` and the
/// arguments from index `i` on.
pub open spec fn min_max_from(
    is_min: bool,
    args: Seq<ExprSyntax>,
    i: int,
    running: Evaluation,
    constants: ConstantTable,
    types: TypeTable,
    iota: u64,
    out: Evaluation,
) -> bool
    decreases args, 0int, args.len() - i,
{
    if i < 0 || i >= args.len() {
        out == running
    } else {
        match running {
            Evaluation::Value(t, c) => exists|a: Evaluation|
                #[trigger] outcome(a) && evaluates(args[i], constants, types, iota, a) && match a {
                    Evaluation::Failure(k) => out == Evaluation::Failure(k),
                    Evaluation::Value(rt, rc) => exists|next: Evaluation|
                        #[trigger] outcome(next) && min_max_step(is_min, t, c, rt, rc, next) && match next {
                            Evaluation::Failure(k) => out == Evaluation::Failure(k),
                            Evaluation::Value(_, _) => min_max_from(
                                is_min,
                                args,
                                i + 1,
                                next,
                                constants,
                                types,
                                iota,
                                out,
                            ),
                        },
                },
            Evaluation::Failure(_) => out == running,
        }
    }
}

/// `out` is `complex` of the two arguments.
pub open spec fn complex_call_evaluation(
    args: Seq<ExprSyntax>,
    constants: ConstantTable,
    types: TypeTable,
    iota: u64,
    out: Evaluation,
) -> bool
    decreases args, 0int, 0int,
{
    if args.len() != 2 {
        out == Evaluation::Failure(DiagnosticKind::Semantic)
    } else {
        exists|a: Evaluation|
            #[trigger] outcome(a) && evaluates(args[0], constants, types, iota, a) && match a {
                Evaluation::Failure(k) => out == Evaluation::Failure(k),
                Evaluation::Value(rt, rc) => exists|b: Evaluation|
                    #[trigger] outcome(b) && evaluates(args[1], constants, types, iota, b) && match b {
                        Evaluation::Failure(k) => out == Evaluation::Failure(k),
                        Evaluation::Value(it, ic) => complex_evaluation(rt, rc, it, ic, out),
                    },
            }
    }
}

/// `out` is `real` (or `imag`) of the argument.
pub open spec fn component_call_evaluation(
    is_real: bool,
    args: Seq<ExprSyntax>,
    constants: ConstantTable,
    types: TypeTable,
    iota: u64,
    out: Evaluation,
) -> bool
    decreases args, 0int, 0int,
{
    if args.len() != 1 {
        out == Evaluation::Failure(DiagnosticKind::Semantic)
    } else {
        exists|a: Evaluation|
            #[trigger] outcome(a) && evaluates(args[0], constants, types, iota, a) && component_evaluation(is_real, a, out)
    }
}

/// The decimal constant of an unsigned integer.
fn unsigned_constant(v: u64) -> (r: ConstValue)
    ensures
        r matches ConstValue::Int(s) && s@ == int_spelling(v as int),
        r.wf(),
{
    proof {
        crate::literals::lemma_int_spelling_roundtrip(v as int);
    }
    ConstValue::Int(big_to_decimal(&big_from_u64(v)))
}

/// A semantic diagnostic whose message is `text` followed by `tail`.
fn semantic_with(text: &str, tail: &str, source: SourceRef) -> (r: Diagnostic)
    ensures
        r.kind == DiagnosticKind::Semantic,
        r.message@ == text@ + tail@,
        r.source == Some(source),
{
    let mut message = String::from_str(text);
    message.append(tail);
    Diagnostic { kind: DiagnosticKind::Semantic, message, source: Some(source) }
}

/// Evaluates a literal.
fn eval_literal(token: Token, spelling: &String, source: SourceRef) -> (r: Result<(Ty, ConstValue), Diagnostic>)
    ensures
        literal_evaluation(token, spelling@, evaluation_of(r)),
        r matches Ok((_, c)) ==> c.wf(),
{
    let text = spelling.as_str();
    match token {
        Token::INT => match parse_go_integer(text) {
            Some(value) => {
                proof {
                    crate::literals::lemma_int_spelling_roundtrip(go_integer_bytes(text.spec_bytes())->0);
                }
                Ok((Ty::Untyped(UntypedTy::Int), ConstValue::Int(value)))
            },
            None => Err(semantic_with("invalid integer literal ", text, source)),
        },
        Token::FLOAT => match ExactNumber::from_spelling(text) {
            Some(value) => Ok((Ty::Untyped(UntypedTy::Float), ConstValue::Float(value))),
            None => Err(semantic_with("invalid floating-point literal ", text, source)),
        },
        Token::IMAG => match parse_go_imaginary(text) {
            Some(imag) => Ok(
                (Ty::Untyped(UntypedTy::Complex), ConstValue::Complex { real: ExactNumber::zero(), imag }),
            ),
            None => Err(Diagnostic::semantic("invalid imaginary literal", source)),
        },
        Token::STRING => match parse_go_string(text) {
            Some(value) => Ok((Ty::Untyped(UntypedTy::String), ConstValue::String(value))),
            None => Err(Diagnostic::semantic("invalid string literal", source)),
        },
        Token::CHAR => match parse_go_rune(text) {
            Some(value) => Ok((Ty::Untyped(UntypedTy::Rune), unsigned_constant(value as u64))),
            None => Err(Diagnostic::semantic("invalid rune literal", source)),
        },
        _ => Err(Diagnostic::unsupported("this literal kind is not implemented", source)),
    }
}

/// Evaluates an identifier.
fn eval_ident(name: &String, constants: &ConstantTable, source: SourceRef, iota: u64) -> (r: Result<
    (Ty, ConstValue),
    Diagnostic,
>)
    requires
        constants.wf(),
    ensures
        ident_evaluation(name@, *constants, iota, evaluation_of(r)),
        r matches Ok((_, c)) ==> c.wf(),
{
    if let Some(constant) = constants.lookup(name) {
        Ok(constant)
    } else if spells(name, "true") || spells(name, "false") {
        Ok((Ty::Untyped(UntypedTy::Bool), ConstValue::Bool(spells(name, "true"))))
    } else if spells(name, "iota") {
        Ok((Ty::Untyped(UntypedTy::Int), unsigned_constant(iota)))
    } else {
        let mut message = name.clone();
        message.append(" is not a constant");
        Err(Diagnostic { kind: DiagnosticKind::Semantic, message, source: Some(source) })
    }
}

/// Evaluates a binary operator token on two evaluated operands.
fn eval_binary(token: Token, lt: Ty, lc: ConstValue, rt: Ty, rc: ConstValue, source: SourceRef) -> (r: Result<
    (Ty, ConstValue),
    Diagnostic,
>)
    requires
        lc.wf(),
        rc.wf(),
    ensures
        binary_evaluation(token, lt, lc, rt, rc, evaluation_of(r)),
        r matches Ok((_, c)) ==> c.wf(),
{
    let op = match lower_binary_op(token) {
        Some(op) => op,
        None => return Err(Diagnostic::unsupported("this constant operator is not implemented", source)),
    };
    if (op == BinaryOp::Shl || op == BinaryOp::Shr) && matches!(lt, Ty::Untyped(_)) && (rt.is_integer()
        || matches!(rt, Ty::Untyped(_))) {
        let value = fold_untyped_constant_shift(op, &lc, &rc, source)?;
        return Ok((Ty::Untyped(UntypedTy::Int), value));
    }
    let operand_ty = match exact_common_operand_type(&lt, &rt) {
        Some(t) => t,
        None => return Err(Diagnostic::semantic("incompatible constant operands", source)),
    };
    validate_constant_binary_operator(op, &operand_ty, source)?;
    let left = normalize_constant_for_type(&lc, &operand_ty, source)?;
    let right = normalize_constant_for_type(&rc, &operand_ty, source)?;
    let folded = fold_constant_binary(op, &left, &right, source)?;
    let value = match folded {
        Some(v) => v,
        None => return Err(Diagnostic::unsupported("this constant operation is not yet supported", source)),
    };
    let result_ty = match op {
        BinaryOp::Equal
        | BinaryOp::NotEqual
        | BinaryOp::Less
        | BinaryOp::LessEqual
        | BinaryOp::Greater
        | BinaryOp::GreaterEqual
        | BinaryOp::LogicalAnd
        | BinaryOp::LogicalOr => Ty::Untyped(UntypedTy::Bool),
        _ => operand_ty,
    };
    let normalized = normalize_constant_for_type(&value, &result_ty, source)?;
    proof {
        assert(folded_as(constant_binary(op, left, right), ConstValue::Bool(false), Ok(Some(value))));
    }
    Ok((result_ty, normalized))
}

/// Evaluates a unary operator token on an evaluated operand.
fn eval_unary(token: Token, t: Ty, c: ConstValue, source: SourceRef) -> (r: Result<(Ty, ConstValue), Diagnostic>)
    requires
        c.wf(),
    ensures
        unary_evaluation(token, t, c, evaluation_of(r)),
        r matches Ok((_, v)) ==> v.wf(),
{
    let ghost operand = c;
    let value = match token {
        Token::ADD => c,
        Token::SUB => match c {
            ConstValue::Int(s) => {
                let v = match parse_int_spelling(&s) {
                    Some(v) => v,
                    None => return Err(Diagnostic::semantic("invalid exact integer", source)),
                };
                let negated = big_neg(&v);
                proof {
                    crate::literals::lemma_int_spelling_roundtrip(negated.value());
                }
                ConstValue::Int(big_to_decimal(&negated))
            },
            ConstValue::Float(x) => ConstValue::Float(x.negated()),
            ConstValue::Complex { real: a, imag: b } => ConstValue::Complex {
                real: a.negated(),
                imag: b.negated(),
            },
            _ => return Err(Diagnostic::unsupported("constant unary operation is not implemented", source)),
        },
        Token::NOT => match c {
            ConstValue::Bool(b) => ConstValue::Bool(!b),
            _ => return Err(Diagnostic::unsupported("constant unary operation is not implemented", source)),
        },
        _ => return Err(Diagnostic::unsupported("constant unary operation is not implemented", source)),
    };
    proof {
        assert(folded_as(syntax_unary(token, operand), operand, Ok(Some(value))));
    }
    let normalized = normalize_constant_for_type(&value, &t, source)?;
    Ok((t, normalized))
}

/// Evaluates a constant expression, naming constants from `constant_lookup`
/// and conversion types from `type_lookup`.
pub fn eval_constant_with_lookups(
    expression: &ExprSyntax,
    constant_lookup: &ConstantTable,
    type_lookup: &TypeTable,
    source: SourceRef,
    iota: u64,
) -> (r: Result<(Ty, ConstValue), Diagnostic>)
    requires
        constant_lookup.wf(),
        type_lookup.wf(),
    ensures
        evaluates(*expression, *constant_lookup, *type_lookup, iota, evaluation_of(r)),
        r matches Ok((_, c)) ==> c.wf(),
    decreases *expression, 3int, 0int,
{
    match &expression.kind {
        ExprSyntaxKind::Literal { token, spelling } => eval_literal(*token, spelling, source),
        ExprSyntaxKind::Ident(ident) => eval_ident(&ident.name, constant_lookup, source, iota),
        ExprSyntaxKind::Binary { left, token, right } => {
            let a = eval_constant_with_lookups(left, constant_lookup, type_lookup, source, iota);
            proof {
                assert(outcome(evaluation_of(a)));
            }
            let (left_ty, left_value) = match a {
                Ok(v) => v,
                Err(d) => return Err(d),
            };
            let b = eval_constant_with_lookups(right, constant_lookup, type_lookup, source, iota);
            proof {
                assert(outcome(evaluation_of(b)));
            }
            let (right_ty, right_value) = match b {
                Ok(v) => v,
                Err(d) => return Err(d),
            };
            eval_binary(*token, left_ty, left_value, right_ty, right_value, source)
        },
        ExprSyntaxKind::Paren(inner) => eval_constant_with_lookups(inner, constant_lookup, type_lookup, source, iota),
        ExprSyntaxKind::Unary { token, expression: operand } => {
            let a = eval_constant_with_lookups(operand, constant_lookup, type_lookup, source, iota);
            proof {
                assert(outcome(evaluation_of(a)));
            }
            let (ty, value) = match a {
                Ok(v) => v,
                Err(d) => return Err(d),
            };
            eval_unary(*token, ty, value, source)
        },
        ExprSyntaxKind::Call { callee, arguments, spread } => eval_constant_call(
            callee,
            arguments,
            *spread,
            constant_lookup,
            type_lookup,
            source,
            iota,
        ),
        _ => Err(Diagnostic::unsupported("this constant expression is not yet supported", source)),
    }
}

/// Evaluates a call in a constant expression.
pub fn eval_constant_call(
    callee: &ExprSyntax,
    arguments: &Vec<ExprSyntax>,
    spread: bool,
    constant_lookup: &ConstantTable,
    type_lookup: &TypeTable,
    source: SourceRef,
    iota: u64,
) -> (r: Result<(Ty, ConstValue), Diagnostic>)
    requires
        constant_lookup.wf(),
        type_lookup.wf(),
    ensures
        call_evaluation(*callee, arguments@, spread, *constant_lookup, *type_lookup, iota, evaluation_of(r)),
        r matches Ok((_, c)) ==> c.wf(),
    decreases arguments@, 2int, 0int,
{
    let name = match &callee.kind {
        ExprSyntaxKind::Ident(ident) => &ident.name,
        _ => {
            return Err(
                Diagnostic::semantic("constant call target must be a predeclared function or type", source),
            )
        },
    };
    if spread {
        return Err(Diagnostic::semantic("... is not permitted in a constant expression", source));
    }
    let target = match type_lookup.lookup(name) {
        Some(t) => Some(t),
        None => predeclared_constant_type(name),
    };
    if let Some(target) = target {
        if arguments.len() != 1 {
            return Err(Diagnostic::semantic("a conversion requires exactly one argument", source));
        }
        let a = eval_constant_with_lookups(&arguments[0], constant_lookup, type_lookup, source, iota);
        proof {
            assert(outcome(evaluation_of(a)));
        }
        let (actual, value) = match a {
            Ok(v) => v,
            Err(d) => return Err(d),
        };
        if !is_assignable(&actual, &target) || !value.is_representable_as(&target) {
            return Err(Diagnostic::semantic("constant is not representable in the conversion type", source));
        }
        let converted = value.normalized_for(&target);
        return Ok((target, converted));
    }
    if spells(name, "len") {
        if arguments.len() != 1 {
            return Err(Diagnostic::semantic("constant len requires exactly one argument", source));
        }
        let a = eval_constant_with_lookups(&arguments[0], constant_lookup, type_lookup, source, iota);
        proof {
            assert(outcome(evaluation_of(a)));
        }
        let value = match a {
            Ok((_, v)) => v,
            Err(d) => return Err(d),
        };
        match value {
            ConstValue::String(bytes) => Ok((Ty::Untyped(UntypedTy::Int), unsigned_constant(bytes.len() as u64))),
            _ => Err(Diagnostic::semantic("constant len currently requires a constant string", source)),
        }
    } else if spells(name, "min") || spells(name, "max") {
        eval_constant_min_max(name, arguments, constant_lookup, type_lookup, source, iota)
    } else if spells(name, "complex") {
        eval_constant_complex(arguments, constant_lookup, type_lookup, source, iota)
    } else if spells(name, "real") || spells(name, "imag") {
        eval_constant_complex_component(name, arguments, constant_lookup, type_lookup, source, iota)
    } else {
        let mut message = name.clone();
        message.append(" is not a constant function or type");
        Err(Diagnostic { kind: DiagnosticKind::Semantic, message, source: Some(source) })
    }
}

/// A semantic diagnostic whose message is `name` followed by `tail`.
fn semantic_named(name: &String, tail: &str, source: SourceRef) -> (r: Diagnostic)
    ensures
        r.kind == DiagnosticKind::Semantic,
        r.message@ == name@ + tail@,
        r.source == Some(source),
{
    let mut message = name.clone();
    message.append(tail);
    Diagnostic { kind: DiagnosticKind::Semantic, message, source: Some(source) }
}

/// One step of `min` or `max`: the running value against the next argument.
fn min_max_combine(name: &String, is_min: bool, t: &Ty, c: &ConstValue, rt: Ty, rc: ConstValue, source: SourceRef) -> (r:
    Result<(Ty, ConstValue), Diagnostic>)
    requires
        c.wf(),
        rc.wf(),
    ensures
        min_max_step(is_min, *t, *c, rt, rc, evaluation_of(r)),
        r matches Ok((_, v)) ==> v.wf(),
{
    let common = match exact_common_operand_type(t, &rt) {
        Some(common) => common,
        None => return Err(semantic_named(name, " has incompatible operands", source)),
    };
    let defaulted = common.default_typed();
    let u = defaulted.underlying();
    if !(common.is_numeric() || matches!(u, Ty::String)) || matches!(u, Ty::Complex(_)) {
        return Err(semantic_named(name, " requires ordered arguments", source));
    }
    let left = normalize_constant_for_type(c, &common, source)?;
    let right = normalize_constant_for_type(&rc, &common, source)?;
    let op = if is_min { BinaryOp::Min } else { BinaryOp::Max };
    let folded = fold_constant_binary(op, &left, &right, source)?;
    let value = match folded {
        Some(v) => v,
        None => return Err(semantic_with("invalid constant ", name.as_str(), source)),
    };
    let normalized = normalize_constant_for_type(&value, &common, source)?;
    proof {
        assert(folded_as(constant_binary(op, left, right), ConstValue::Bool(false), Ok(Some(value))));
    }
    Ok((common, normalized))
}

/// Evaluates `min` or `max` of the arguments.
pub fn eval_constant_min_max(
    name: &String,
    arguments: &Vec<ExprSyntax>,
    constant_lookup: &ConstantTable,
    type_lookup: &TypeTable,
    source: SourceRef,
    iota: u64,
) -> (r: Result<(Ty, ConstValue), Diagnostic>)
    requires
        constant_lookup.wf(),
        type_lookup.wf(),
    ensures
        min_max_evaluation(name@ == "min"@, arguments@, *constant_lookup, *type_lookup, iota, evaluation_of(r)),
        r matches Ok((_, c)) ==> c.wf(),
    decreases arguments@, 1int, 0int,
{
    let is_min = spells(name, "min");
    if arguments.len() == 0 {
        return Err(semantic_with("call requires at least one argument: ", name.as_str(), source));
    }
    let first = eval_constant_with_lookups(&arguments[0], constant_lookup, type_lookup, source, iota);
    proof {
        assert(outcome(evaluation_of(first)));
    }
    let (mut ty, mut value) = match first {
        Ok(v) => v,
        Err(d) => return Err(d),
    };
    let ghost args = arguments@;
    let ghost cl = *constant_lookup;
    let ghost tl = *type_lookup;
    let mut i: usize = 1;
    while i < arguments.len()
        invariant
            constant_lookup.wf(),
            type_lookup.wf(),
            args == arguments@,
            cl == *constant_lookup,
            tl == *type_lookup,
            is_min == (name@ == "min"@),
            1 <= i <= args.len(),
            value.wf(),
            forall|out: Evaluation|
                #[trigger] min_max_from(is_min, args, i as int, Evaluation::Value(ty, value), cl, tl, iota, out)
                    ==> min_max_evaluation(is_min, args, cl, tl, iota, out),
        decreases args.len() - i,
    {
        let b = eval_constant_with_lookups(&arguments[i], constant_lookup, type_lookup, source, iota);
        let ghost running = Evaluation::Value(ty, value);
        proof {
            assert(outcome(evaluation_of(b)));
        }
        let (right_ty, right) = match b {
            Ok(v) => v,
            Err(d) => {
                proof {
                    assert(min_max_from(is_min, args, i as int, running, cl, tl, iota, Evaluation::Failure(d.kind)));
                }
                return Err(d);
            },
        };
        let step = min_max_combine(name, is_min, &ty, &value, right_ty, right, source);
        proof {
            assert(outcome(evaluation_of(step)));
        }
        match step {
            Ok((t2, v2)) => {
                proof {
                    let next = Evaluation::Value(t2, v2);
                    assert forall|out: Evaluation|
                        #[trigger] min_max_from(is_min, args, i + 1, next, cl, tl, iota, out) implies min_max_evaluation(
                        is_min,
                        args,
                        cl,
                        tl,
                        iota,
                        out,
                    ) by {
                        assert(outcome(evaluation_of(b)));
                        assert(outcome(next));
                        assert(min_max_from(is_min, args, i as int, running, cl, tl, iota, out));
                    }
                }
                ty = t2;
                value = v2;
            },
            Err(d) => {
                proof {
                    assert(min_max_from(is_min, args, i as int, running, cl, tl, iota, Evaluation::Failure(d.kind)));
                }
                return Err(d);
            },
        }
        i += 1;
    }
    proof {
        assert(min_max_from(is_min, args, i as int, Evaluation::Value(ty, value), cl, tl, iota, Evaluation::Value(ty, value)));
    }
    Ok((ty, value))
}

/// Evaluates `complex` of two arguments.
pub fn eval_constant_complex(
    arguments: &Vec<ExprSyntax>,
    constant_lookup: &ConstantTable,
    type_lookup: &TypeTable,
    source: SourceRef,
    iota: u64,
) -> (r: Result<(Ty, ConstValue), Diagnostic>)
    requires
        constant_lookup.wf(),
        type_lookup.wf(),
    ensures
        complex_call_evaluation(arguments@, *constant_lookup, *type_lookup, iota, evaluation_of(r)),
        r matches Ok((_, c)) ==> c.wf(),
    decreases arguments@, 0int, 0int,
{
    if arguments.len() != 2 {
        return Err(Diagnostic::semantic("call to complex requires exactly two arguments", source));
    }
    let a = eval_constant_with_lookups(&arguments[0], constant_lookup, type_lookup, source, iota);
    proof {
        assert(outcome(evaluation_of(a)));
    }
    let (real_ty, real_value) = match a {
        Ok(v) => v,
        Err(d) => {
            proof {
                assert(evaluates(arguments@[0], *constant_lookup, *type_lookup, iota, Evaluation::Failure(d.kind)));
                assert(arguments@.len() == 2);
                assert(complex_call_evaluation(arguments@, *constant_lookup, *type_lookup, iota, Evaluation::Failure(d.kind)));
            }
            return Err(d);
        },
    };
    let b = eval_constant_with_lookups(&arguments[1], constant_lookup, type_lookup, source, iota);
    proof {
        assert(outcome(evaluation_of(b)));
    }
    let (imag_ty, imag_value) = match b {
        Ok(v) => v,
        Err(d) => return Err(d),
    };
    let component_ty = match exact_common_operand_type(&real_ty, &imag_ty) {
        Some(t) => t,
        None => return Err(Diagnostic::semantic("incompatible complex components", source)),
    };
    let defaulted = component_ty.default_typed();
    let u = defaulted.underlying();
    let ty = if matches!(u, Ty::Float(FloatTy::Float32)) {
        Ty::Complex(ComplexTy::Complex64)
    } else if matches!(u, Ty::Int(_) | Ty::Uint(_) | Ty::Float(FloatTy::Float64)) && matches!(
        component_ty,
        Ty::Untyped(_)
    ) {
        Ty::Untyped(UntypedTy::Complex)
    } else if matches!(u, Ty::Float(FloatTy::Float64)) {
        Ty::Complex(ComplexTy::Complex128)
    } else {
        return Err(
            Diagnostic::semantic("complex requires floating-point arguments or numeric constants", source),
        );
    };
    let re = match real_value.exact_number() {
        Some(x) => x,
        None => return Err(Diagnostic::semantic("complex requires real numeric constant arguments", source)),
    };
    let im = match imag_value.exact_number() {
        Some(x) => x,
        None => return Err(Diagnostic::semantic("complex requires real numeric constant arguments", source)),
    };
    Ok((ty, ConstValue::Complex { real: re, imag: im }))
}

/// Evaluates `real` or `imag` of an argument.
pub fn eval_constant_complex_component(
    name: &String,
    arguments: &Vec<ExprSyntax>,
    constant_lookup: &ConstantTable,
    type_lookup: &TypeTable,
    source: SourceRef,
    iota: u64,
) -> (r: Result<(Ty, ConstValue), Diagnostic>)
    requires
        constant_lookup.wf(),
        type_lookup.wf(),
    ensures
        component_call_evaluation(name@ == "real"@, arguments@, *constant_lookup, *type_lookup, iota, evaluation_of(r)),
        r matches Ok((_, c)) ==> c.wf(),
    decreases arguments@, 0int, 0int,
{
    if arguments.len() != 1 {
        return Err(semantic_with("exactly one argument is required by ", name.as_str(), source));
    }
    let is_real = spells(name, "real");
    let a = eval_constant_with_lookups(&arguments[0], constant_lookup, type_lookup, source, iota);
    proof {
        assert(outcome(evaluation_of(a)));
    }
    let (argument_ty, argument) = match a {
        Ok(v) => v,
        Err(d) => return Err(d),
    };
    match argument {
        ConstValue::Complex { real: re, imag: im } => {
            let ty = match argument_ty {
                Ty::Untyped(_) => Ty::Untyped(UntypedTy::Float),
                Ty::Complex(ComplexTy::Complex64) => Ty::Float(FloatTy::Float32),
                Ty::Complex(ComplexTy::Complex128) => Ty::Float(FloatTy::Float64),
                _ => return Err(semantic_named(name, " requires a complex argument", source)),
            };
            Ok((ty, ConstValue::Float(if is_real { re } else { im })))
        },
        _ => Err(semantic_named(name, " requires a complex argument", source)),
    }
}

/// Evaluates a constant expression over package constants and type aliases.
pub fn eval_constant(
    expression: &ExprSyntax,
    constants: &ConstantTable,
    type_aliases: &TypeTable,
    source: SourceRef,
    iota: u64,
) -> (r: Result<(Ty, ConstValue), Diagnostic>)
    requires
        constants.wf(),
        type_aliases.wf(),
    ensures
        evaluates(*expression, *constants, *type_aliases, iota, evaluation_of(r)),
        r matches Ok((_, c)) ==> c.wf(),
{
    eval_constant_with_lookups(expression, constants, type_aliases, source, iota)
}

/// Evaluates a constant expression over constants alone, with no type
/// aliases.
pub fn eval_constant_with_lookup(expression: &ExprSyntax, lookup: &ConstantTable, source: SourceRef, iota: u64) -> (r:
    Result<(Ty, ConstValue), Diagnostic>)
    requires
        lookup.wf(),
    ensures
        exists|types: TypeTable|
            types.entries@.len() == 0 && #[trigger] evaluates(*expression, *lookup, types, iota, evaluation_of(r)),
        r matches Ok((_, c)) ==> c.wf(),
{
    let types = TypeTable::empty();
    let r = eval_constant_with_lookups(expression, lookup, &types, source, iota);
    proof {
        assert(outcome(evaluation_of(r)));
    }
    proof {
        assert(types.entries@.len() == 0);
    }
    r
}

} // verus!
