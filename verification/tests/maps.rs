use gors_semantic::hir::{Builtin, Effects, Expr, ExprKind, NodeId, SourceRef, ValueCategory};
use gors_semantic::maps::{i64_go_string_map_ty, map_effects, string_i64_map_ty, ConcreteMapRepresentation};
use gors_semantic::pointers::{int_pointer_ty, pointer_effects};
use gors_semantic::types::{IntTy, Ty};

fn operand(may_block: bool) -> Expr {
    let mut effects = Effects::none();
    effects.may_block = may_block;
    Expr {
        node: 1,
        kind: ExprKind::Local(0),
        ty: Ty::Int(IntTy::Int),
        category: ValueCategory::Value,
        effects,
        source: SourceRef::Node(NodeId { owner: 1, local: 1 }),
    }
}

#[test]
fn concrete_map_representations_by_underlying_type() {
    assert_eq!(ConcreteMapRepresentation::for_ty(&string_i64_map_ty()), Some(ConcreteMapRepresentation::StringI64));
    let named = Ty::Named { definition: 3, underlying: Box::new(i64_go_string_map_ty()) };
    assert_eq!(ConcreteMapRepresentation::for_ty(&named), Some(ConcreteMapRepresentation::I64GoString));
    let other = Ty::MapTy(Box::new(Ty::String), Box::new(Ty::String));
    assert_eq!(ConcreteMapRepresentation::for_ty(&other), None);
}

#[test]
fn concrete_map_operations() {
    let r = ConcreteMapRepresentation::StringI64;
    assert_eq!(r.key_ty(), Ty::String);
    assert_eq!(r.value_ty(), Ty::Int(IntTy::Int));
    assert_eq!(r.nil(), Builtin::MapStringI64Nil);
    assert_eq!(r.make(), Builtin::MapStringI64Make);
    assert_eq!(r.get(), Builtin::MapStringI64Get);
    assert_eq!(r.lookup(), Builtin::MapStringI64Lookup);
    assert_eq!(r.delete(), Builtin::MapStringI64Delete);
    let s = ConcreteMapRepresentation::I64GoString;
    assert_eq!(s.key_ty(), Ty::Int(IntTy::Int));
    assert_eq!(s.get(), Builtin::MapI64GoStringGet);
}

#[test]
fn map_operations_read_and_call_and_keep_operand_effects() {
    let a = operand(true);
    let b = operand(false);
    let effects = map_effects(&[&a, &b], true, false, false);
    assert!(effects.may_read && effects.may_call && effects.may_write && effects.may_block);
    assert!(!effects.may_allocate && !effects.may_panic);
}

#[test]
fn pointer_operations_do_not_read_by_themselves() {
    let a = operand(false);
    let effects = pointer_effects(&[&a], false, true, true);
    assert!(effects.may_call && effects.may_allocate && effects.may_panic);
    assert!(!effects.may_read && !effects.may_write && !effects.may_block);
    assert_eq!(int_pointer_ty(), Ty::Pointer(Box::new(Ty::Int(IntTy::Int))));
}
