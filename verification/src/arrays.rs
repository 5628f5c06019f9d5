//! Fixed-size Go arrays of executable scalar values.

use vstd::prelude::*;

use crate::constant::ConstValue;
use crate::constants::{eval_constant_with_lookup, evaluates, evaluation_of, ConstantTable, Evaluation, TypeTable};
use crate::bignum::{big_from_u64, big_to_decimal, int_spelling};
use crate::conversions::{parse_i64, parse_u64, parse_usize, std_unsigned_decimal};
use crate::constant::int_spelling_value;
use crate::literals::u64_spelling;
use crate::function::FunctionLowerer;
use crate::expressions::{coerce_expr, plainly_coerced, spec_is_assignable};
use crate::hir::{Diagnostic, DiagnosticKind, Expr, ExprKind, SourceRef, ValueCategory};
use crate::syntax::{ExprSyntax, ExprSyntaxKind};
use crate::types::{IntTy, Ty, UintTy};

verus! {

/// The longest array the implementation supports.
pub const MAX_BOOTSTRAP_ARRAY_LENGTH: u64 = 1048576;

/// The array length that an evaluated length expression gives, or the kind
/// of the diagnostic that rejects it.
pub open spec fn length_of(ev: Evaluation) -> Result<u64, DiagnosticKind> {
    match ev {
        Evaluation::Failure(k) => Err(k),
        Evaluation::Value(t, c) => if !t.spec_is_integer() && !(t is Untyped) {
            Err(DiagnosticKind::Semantic)
        } else {
            match c.spec_integer_value() {
                None => Err(DiagnosticKind::Semantic),
                Some(v) => if v < i64::MIN || v > i64::MAX || v < 0 {
                    Err(DiagnosticKind::Semantic)
                } else if v > MAX_BOOTSTRAP_ARRAY_LENGTH {
                    Err(DiagnosticKind::Unsupported)
                } else {
                    Ok(v as u64)
                },
            }
        },
    }
}

/// The error for an array longer than the implementation limit, naming the
/// length and the limit.
fn length_limit_error(length: u64, source: SourceRef) -> (r: Diagnostic)
    ensures
        r.kind == DiagnosticKind::Unsupported,
        r.message@ == "array length "@ + int_spelling(length as int) + " exceeds the current implementation limit of "@
            + int_spelling(MAX_BOOTSTRAP_ARRAY_LENGTH as int),
        r.source == Some(source),
{
    let mut message = String::from_str("array length ");
    let spelled = u64_spelling(length);
    message.append(spelled.as_str());
    message.append(" exceeds the current implementation limit of ");
    let limit = u64_spelling(MAX_BOOTSTRAP_ARRAY_LENGTH);
    message.append(limit.as_str());
    Diagnostic { kind: DiagnosticKind::Unsupported, message, source: Some(source) }
}

/// The length of an array type: an integer constant from zero to the
/// implementation limit.
pub fn array_length(expression: &ExprSyntax, constant_lookup: &ConstantTable, source: SourceRef) -> (r: Result<
    u64,
    Diagnostic,
>)
    requires
        constant_lookup.wf(),
    ensures
        exists|types: TypeTable, ev: Evaluation|
            types.entries@.len() == 0 && #[trigger] evaluates(*expression, *constant_lookup, types, 0, ev)
                && match r {
                Ok(n) => length_of(ev) == Ok::<u64, DiagnosticKind>(n),
                Err(d) => length_of(ev) == Err::<u64, DiagnosticKind>(d.kind),
            },
{
    let evaluated = eval_constant_with_lookup(expression, constant_lookup, source, 0);
    let ghost ev = crate::constants::evaluation_of(evaluated);
    let (ty, value) = match evaluated {
        Ok(v) => v,
        Err(d) => return Err(d),
    };
    if !ty.is_integer() && !matches!(ty, Ty::Untyped(_)) {
        return Err(Diagnostic::semantic("array length must be an integer constant", source));
    }
    let integer = match value.exact_integer() {
        Some(v) => v,
        None => return Err(Diagnostic::semantic("array length must be an integer constant", source)),
    };
    let text = match integer {
        ConstValue::Int(text) => text,
        _ => return Err(Diagnostic::backend("integer array length normalization produced a non-integer constant")),
    };
    proof {
        crate::literals::lemma_int_spelling_roundtrip(value.spec_integer_value()->0);
        crate::conversions::lemma_int_spelling_std_decimal(value.spec_integer_value()->0);
    }
    let signed = match parse_i64(text.as_str()) {
        Some(v) => v,
        None => return Err(Diagnostic::semantic("array length is not representable by Go int", source)),
    };
    if signed < 0 {
        return Err(Diagnostic::semantic("array length must be non-negative", source));
    }
    let length = signed as u64;
    if length > MAX_BOOTSTRAP_ARRAY_LENGTH {
        return Err(length_limit_error(length, source));
    }
    Ok(length)
}

/// Element types of arrays that the implementation stores as scalars.
pub open spec fn spec_is_scalar_array_element(ty: Ty) -> bool {
    match ty.spec_underlying() {
        Ty::Bool | Ty::Int(IntTy::Int) | Ty::Uint(UintTy::Uint8) | Ty::Float(_) | Ty::String => true,
        _ => false,
    }
}

pub fn is_scalar_array_element(ty: &Ty) -> (r: bool)
    ensures
        r == spec_is_scalar_array_element(*ty),
{
    matches!(ty.underlying(), Ty::Bool | Ty::Int(IntTy::Int) | Ty::Uint(UintTy::Uint8) | Ty::Float(_) | Ty::String)
}

/// The index that an element of an array literal takes: the value of its
/// key, which must be an integer constant that `u64` holds, or the index
/// after the previous element.
pub open spec fn literal_index(element: ExprSyntax, ev: Evaluation, next: int) -> Result<int, DiagnosticKind> {
    match element.kind {
        ExprSyntaxKind::KeyValue { .. } => match ev {
            Evaluation::Failure(k) => Err(k),
            Evaluation::Value(_, ConstValue::Int(s)) => if std_unsigned_decimal(s@) && 0 <= int_spelling_value(s@)
                <= u64::MAX {
                Ok(int_spelling_value(s@))
            } else {
                Err(DiagnosticKind::Semantic)
            },
            Evaluation::Value(_, _) => Err(DiagnosticKind::Semantic),
        },
        _ => Ok(next),
    }
}

/// After the elements that `evs` covers, given how each key evaluated:
/// the next index and the length so far, or the kind of the first error.
pub open spec fn literal_state(elements: Seq<ExprSyntax>, evs: Seq<Evaluation>) -> Result<(int, int), DiagnosticKind>
    decreases evs.len(),
{
    if evs.len() == 0 {
        Ok((0, 0))
    } else {
        match literal_state(elements, evs.drop_last()) {
            Err(k) => Err(k),
            Ok((next, length)) => match literal_index(elements[evs.len() - 1], evs.last(), next) {
                Err(k) => Err(k),
                Ok(i) => if i >= u64::MAX {
                    Err(DiagnosticKind::Semantic)
                } else {
                    Ok((i + 1, if length < i + 1 { i + 1 } else { length }))
                },
            },
        }
    }
}

/// The key of a keyed element.
pub open spec fn element_key(element: ExprSyntax) -> Option<ExprSyntax> {
    match element.kind {
        ExprSyntaxKind::KeyValue { key, .. } => Some(*key),
        _ => None,
    }
}

impl FunctionLowerer {
    /// `ev` is what evaluating `key` as a constant in the function body
    /// gives.
    pub open spec fn key_evaluates(&self, key: ExprSyntax, ev: Evaluation) -> bool {
        exists|table: ConstantTable, types: TypeTable|
            #[trigger] evaluates(key, table, types, 0, ev) && table.wf() && types.wf() && self.sees_constants(table)
                && self.sees_types(types)
    }

    /// `r` is what inferring the literal's length gives when the keys of the
    /// elements that `evs` covers evaluate as `evs` says.
    pub open spec fn length_outcome(
        &self,
        elements: Seq<ExprSyntax>,
        evs: Seq<Evaluation>,
        r: Result<u64, Diagnostic>,
    ) -> bool {
        &&& evs.len() <= elements.len()
        &&& forall|i: int|
            0 <= i < evs.len() ==> (element_key(elements[i]) matches Some(key) ==> self.key_evaluates(
                key,
                #[trigger] evs[i],
            ))
        &&& match r {
            Ok(n) => evs.len() == elements.len() && (literal_state(elements, evs) matches Ok((_, length)) && n
                == length && length <= MAX_BOOTSTRAP_ARRAY_LENGTH),
            Err(d) => (evs.len() > 0 && literal_state(elements, evs.drop_last()) is Ok && literal_state(elements, evs)
                == Err::<(int, int), DiagnosticKind>(d.kind)) || (evs.len() == elements.len() && d.kind
                == DiagnosticKind::Unsupported && (literal_state(elements, evs) matches Ok((_, length)) && length
                > MAX_BOOTSTRAP_ARRAY_LENGTH)),
        }
    }

    /// The length of an array literal written with `[...]`: one past the
    /// largest index that an element takes.
    pub fn infer_array_literal_length(&self, elements: &[ExprSyntax], source: SourceRef) -> (r: Result<u64, Diagnostic>)
        requires
            self.wf(),
            self.constants_wf(),
        ensures
            exists|evs: Seq<Evaluation>| #[trigger] self.length_outcome(elements@, evs, r),
    {
        let ghost mut evs: Seq<Evaluation> = Seq::empty();
        let mut next_index: u64 = 0;
        let mut length: u64 = 0;
        let mut k: usize = 0;
        while k < elements.len()
            invariant
                self.wf(),
                self.constants_wf(),
                k <= elements@.len(),
                evs.len() == k,
                forall|i: int|
                    0 <= i < evs.len() ==> (element_key(elements@[i]) matches Some(key) ==> self.key_evaluates(
                        key,
                        #[trigger] evs[i],
                    )),
                literal_state(elements@, evs) == Ok::<(int, int), DiagnosticKind>((next_index as int, length as int)),
            decreases elements@.len() - k,
        {
            let ghost before = evs;
            let index = match &elements[k].kind {
                ExprSyntaxKind::KeyValue { key, .. } => {
                    let evaluated = self.eval_constant_expression(key, source, 0);
                    proof {
                        evs = evs.push(evaluation_of(evaluated));
                        assert(evs.drop_last() =~= before);
                        assert(element_key(elements@[k as int]) == Some(**key));
                        assert(self.key_evaluates(**key, evs[k as int]));
                    }
                    let key_value = match evaluated {
                        Ok((_, v)) => v,
                        Err(d) => {
                            proof {
                                assert(self.length_outcome(elements@, evs, Err(d)));
                            }
                            return Err(d);
                        },
                    };
                    match key_value {
                        ConstValue::Int(text) => match parse_u64(text.as_str()) {
                            Some(v) => {
                                proof {
                                    assert(evs[k as int] matches Evaluation::Value(_, ConstValue::Int(s)) && s == text);
                                    assert(literal_index(elements@[k as int], evs[k as int], next_index as int)
                                        == Ok::<int, DiagnosticKind>(v as int));
                                }
                                v
                            },
                            None => {
                                let d = Diagnostic::semantic("array literal index is outside u64", source);
                                proof {
                                    assert(self.length_outcome(elements@, evs, Err(d)));
                                }
                                return Err(d);
                            },
                        },
                        _ => {
                            let d = Diagnostic::semantic("array literal index must be an integer constant", source);
                            proof {
                                assert(self.length_outcome(elements@, evs, Err(d)));
                            }
                            return Err(d);
                        },
                    }
                },
                _ => {
                    proof {
                        evs = evs.push(Evaluation::Failure(DiagnosticKind::Backend));
                        assert(evs.drop_last() =~= before);
                        assert(element_key(elements@[k as int]) is None);
                        assert(literal_index(elements@[k as int], evs[k as int], next_index as int)
                            == Ok::<int, DiagnosticKind>(next_index as int));
                    }
                    next_index
                },
            };
            if index == u64::MAX {
                let d = Diagnostic::semantic("array literal index exceeds the type domain", source);
                proof {
                    assert(self.length_outcome(elements@, evs, Err(d)));
                }
                return Err(d);
            }
            next_index = index + 1;
            if length < next_index {
                length = next_index;
            }
            k += 1;
        }
        if length > MAX_BOOTSTRAP_ARRAY_LENGTH {
            let d = length_limit_error(length, source);
            proof {
                assert(self.length_outcome(elements@, evs, Err(d)));
            }
            return Err(d);
        }
        proof {
            assert(self.length_outcome(elements@, evs, Ok(length)));
        }
        Ok(length)
    }
}

/// The slot that an element of a keyed composite literal fills: the value
/// of its key, which must be an integer constant that `usize` holds, or the
/// slot after the previous element.
pub open spec fn slot_index(element: ExprSyntax, ev: Evaluation, next: int) -> Result<int, DiagnosticKind> {
    match element.kind {
        ExprSyntaxKind::KeyValue { .. } => match ev {
            Evaluation::Failure(k) => Err(k),
            Evaluation::Value(_, ConstValue::Int(s)) => if std_unsigned_decimal(s@) && 0 <= int_spelling_value(s@)
                <= usize::MAX {
                Ok(int_spelling_value(s@))
            } else {
                Err(DiagnosticKind::Semantic)
            },
            Evaluation::Value(_, _) => Err(DiagnosticKind::Semantic),
        },
        _ => Ok(next),
    }
}

/// The expression that an element puts in its slot.
pub open spec fn element_value(element: ExprSyntax) -> ExprSyntax {
    match element.kind {
        ExprSyntaxKind::KeyValue { value, .. } => *value,
        _ => element,
    }
}

/// The slots grown with empty ones to hold index `i`.
pub open spec fn grown(slots: Seq<Option<ExprSyntax>>, i: int) -> Seq<Option<ExprSyntax>> {
    if slots.len() <= i {
        slots + Seq::new((i + 1 - slots.len()) as nat, |k: int| None::<ExprSyntax>)
    } else {
        slots
    }
}

/// After the elements that `evs` covers: the next slot and the slots filled
/// so far, or the kind of the first error; each slot may be filled once.
pub open spec fn slots_state(elements: Seq<ExprSyntax>, evs: Seq<Evaluation>) -> Result<
    (int, Seq<Option<ExprSyntax>>),
    DiagnosticKind,
>
    decreases evs.len(),
{
    if evs.len() == 0 {
        Ok((0, Seq::empty()))
    } else {
        match slots_state(elements, evs.drop_last()) {
            Err(k) => Err(k),
            Ok((next, slots)) => match slot_index(elements[evs.len() - 1], evs.last(), next) {
                Err(k) => Err(k),
                Ok(i) => if i >= usize::MAX {
                    Err(DiagnosticKind::Semantic)
                } else if grown(slots, i)[i] is Some {
                    Err(DiagnosticKind::Semantic)
                } else {
                    Ok((i + 1, grown(slots, i).update(i, Some(element_value(elements[evs.len() - 1])))))
                },
            },
        }
    }
}

/// Some element has a key.
pub open spec fn has_keyed_element(elements: Seq<ExprSyntax>) -> bool {
    exists|i: int| 0 <= i < elements.len() && (#[trigger] elements[i]).kind is KeyValue
}

/// The expressions behind a list of optional references.
pub open spec fn slot_views(slots: Seq<Option<&ExprSyntax>>) -> Seq<Option<ExprSyntax>> {
    slots.map_values(
        |o: Option<&ExprSyntax>|
            match o {
                Some(e) => Some(*e),
                None => None,
            },
    )
}

impl FunctionLowerer {
    /// `r` is what expanding a keyed literal gives when the keys of the
    /// elements that `evs` covers evaluate as `evs` says.
    pub open spec fn slots_outcome(
        &self,
        elements: Seq<ExprSyntax>,
        evs: Seq<Evaluation>,
        r: Result<Option<Vec<Option<&ExprSyntax>>>, Diagnostic>,
    ) -> bool {
        &&& evs.len() <= elements.len()
        &&& forall|i: int|
            0 <= i < evs.len() ==> (element_key(elements[i]) matches Some(key) ==> self.key_evaluates(
                key,
                #[trigger] evs[i],
            ))
        &&& match r {
            Ok(Some(v)) => evs.len() == elements.len() && (slots_state(elements, evs) matches Ok((_, slots))
                && slot_views(v@) == slots),
            Ok(None) => false,
            Err(d) => evs.len() > 0 && slots_state(elements, evs.drop_last()) is Ok && slots_state(elements, evs)
                == Err::<(int, Seq<Option<ExprSyntax>>), DiagnosticKind>(d.kind),
        }
    }

    /// The elements of a composite literal by index, when some element has
    /// a key: each slot holds the element written for it, or nothing.
    pub fn indexed_composite_elements<'syntax>(&self, elements: &'syntax [ExprSyntax], source: SourceRef) -> (r:
        Result<Option<Vec<Option<&'syntax ExprSyntax>>>, Diagnostic>)
        requires
            self.wf(),
            self.constants_wf(),
        ensures
            !has_keyed_element(elements@) ==> r == Ok::<Option<Vec<Option<&ExprSyntax>>>, Diagnostic>(None),
            has_keyed_element(elements@) ==> exists|evs: Seq<Evaluation>| #[trigger] self.slots_outcome(elements@, evs, r),
    {
        let mut any_keyed = false;
        let mut j: usize = 0;
        while j < elements.len()
            invariant
                j <= elements@.len(),
                any_keyed == exists|i: int| 0 <= i < j && (#[trigger] elements@[i]).kind is KeyValue,
            decreases elements@.len() - j,
        {
            if matches!(elements[j].kind, ExprSyntaxKind::KeyValue { .. }) {
                any_keyed = true;
            }
            j += 1;
        }
        if !any_keyed {
            return Ok(None);
        }
        proof {
            assert(has_keyed_element(elements@));
        }
        let ghost mut evs: Seq<Evaluation> = Seq::empty();
        let mut slots: Vec<Option<&'syntax ExprSyntax>> = Vec::new();
        let mut next_index: usize = 0;
        let mut k: usize = 0;
        while k < elements.len()
            invariant
                self.wf(),
                self.constants_wf(),
                has_keyed_element(elements@),
                k <= elements@.len(),
                evs.len() == k,
                forall|i: int|
                    0 <= i < evs.len() ==> (element_key(elements@[i]) matches Some(key) ==> self.key_evaluates(
                        key,
                        #[trigger] evs[i],
                    )),
                slots_state(elements@, evs) matches Ok((next, s)) && next == next_index as int && s == slot_views(
                    slots@,
                ),
            decreases elements@.len() - k,
        {
            let ghost before = evs;
            let element = &elements[k];
            let (index, value) = match &element.kind {
                ExprSyntaxKind::KeyValue { key, value } => {
                    let evaluated = self.eval_constant_expression(key, source, 0);
                    proof {
                        evs = evs.push(evaluation_of(evaluated));
                        assert(evs.drop_last() =~= before);
                        assert(element_key(elements@[k as int]) == Some(**key));
                        assert(self.key_evaluates(**key, evs[k as int]));
                    }
                    let key_value = match evaluated {
                        Ok((_, v)) => v,
                        Err(d) => {
                            proof {
                                assert(self.slots_outcome(elements@, evs, Err(d)));
                            }
                            return Err(d);
                        },
                    };
                    match key_value {
                        ConstValue::Int(text) => match parse_usize(text.as_str()) {
                            Some(v) => {
                                proof {
                                    assert(evs[k as int] matches Evaluation::Value(_, ConstValue::Int(s)) && s == text);
                                    assert(slot_index(elements@[k as int], evs[k as int], next_index as int)
                                        == Ok::<int, DiagnosticKind>(v as int));
                                }
                                (v, &**value)
                            },
                            None => {
                                let d = Diagnostic::semantic("composite literal index must be a non-negative Go int", source);
                                proof {
                                    assert(self.slots_outcome(elements@, evs, Err(d)));
                                }
                                return Err(d);
                            },
                        },
                        _ => {
                            let d = Diagnostic::semantic("composite literal index must be an integer constant", source);
                            proof {
                                assert(self.slots_outcome(elements@, evs, Err(d)));
                            }
                            return Err(d);
                        },
                    }
                },
                _ => {
                    proof {
                        evs = evs.push(Evaluation::Failure(DiagnosticKind::Backend));
                        assert(evs.drop_last() =~= before);
                        assert(element_key(elements@[k as int]) is None);
                        assert(slot_index(elements@[k as int], evs[k as int], next_index as int)
                            == Ok::<int, DiagnosticKind>(next_index as int));
                    }
                    (next_index, element)
                },
            };
            proof {
                assert(*value == element_value(elements@[k as int]));
            }
            if index == usize::MAX {
                let d = Diagnostic::semantic("composite literal index exceeds the type domain", source);
                proof {
                    assert(self.slots_outcome(elements@, evs, Err(d)));
                }
                return Err(d);
            }
            next_index = index + 1;
            let ghost old_slots = slot_views(slots@);
            proof {
                assert(slot_views(slots@) =~= old_slots + Seq::new(0 as nat, |q: int| None::<ExprSyntax>));
            }
            while slots.len() <= index
                invariant
                    index < usize::MAX,
                    old_slots.len() <= slots@.len(),
                    slots@.len() > old_slots.len() ==> slots@.len() <= index + 1,
                    slot_views(slots@) == old_slots + Seq::new(
                        (slot_views(slots@).len() - old_slots.len()) as nat,
                        |q: int| None::<ExprSyntax>,
                    ),
                decreases index + 1 - slots@.len(),
            {
                let ghost previous = slots@;
                slots.push(None);
                proof {
                    assert(slots@ == previous.push(None));
                    assert(slot_views(slots@) =~= slot_views(previous).push(None::<ExprSyntax>));
                    assert(slot_views(slots@) =~= old_slots + Seq::new(
                        (slot_views(slots@).len() - old_slots.len()) as nat,
                        |q: int| None::<ExprSyntax>,
                    ));
                }
            }
            proof {
                assert(slot_views(slots@) =~= grown(old_slots, index as int));
            }
            if slots[index].is_some() {
                let mut message = String::from_str("composite literal index ");
                let spelled = big_to_decimal(&big_from_u64(index as u64));
                message.append(spelled.as_str());
                message.append(" is initialized more than once");
                let d = Diagnostic { kind: DiagnosticKind::Semantic, message, source: Some(source) };
                proof {
                    assert(slot_views(slots@)[index as int] is Some);
                    assert(self.slots_outcome(elements@, evs, Err(d)));
                }
                return Err(d);
            }
            slots.set(index, Some(value));
            proof {
                assert(slot_views(slots@) =~= grown(old_slots, index as int).update(
                    index as int,
                    Some(element_value(elements@[k as int])),
                ));
            }
            k += 1;
        }
        let result = Some(slots);
        proof {
            assert(self.slots_outcome(elements@, evs, Ok(result)));
        }
        Ok(result)
    }
}

/// `len` of an array value: the length that its type gives, with the
/// effects of evaluating the array.
pub open spec fn array_len_expr(array: Expr, length: u64, node: u64, source: SourceRef) -> Expr {
    Expr {
        node,
        kind: ExprKind::ArrayLen { array: Box::new(array), length },
        ty: Ty::Int(IntTy::Int),
        category: ValueCategory::Value,
        effects: array.effects,
        source,
    }
}

impl FunctionLowerer {
    /// Lowers `len(array)` of a lowered array value whose type has the
    /// given length.
    pub fn lower_array_len(
        &self,
        array: Expr,
        length: u64,
        node: u64,
        source: SourceRef,
        expected: Option<&Ty>,
    ) -> (r: Result<Expr, Diagnostic>)
        requires
            array.wf(),
        ensures
            r is Ok <==> (expected matches Some(t) ==> spec_is_assignable(Ty::Int(IntTy::Int), *t)),
            r matches Err(d) ==> d.kind == DiagnosticKind::Semantic,
            r matches Ok(e) ==> e.wf() && match expected {
                None => e == array_len_expr(array, length, node, source),
                Some(t) => plainly_coerced(array_len_expr(array, length, node, source), *t, e),
            },
    {
        let effects = array.effects;
        let mut result = Expr {
            node,
            kind: ExprKind::ArrayLen { array: Box::new(array), length },
            ty: Ty::Int(IntTy::Int),
            category: ValueCategory::Value,
            effects,
            source,
        };
        if let Some(t) = expected {
            coerce_expr(&mut result, t, source)?;
        }
        Ok(result)
    }
}

} // verus!
