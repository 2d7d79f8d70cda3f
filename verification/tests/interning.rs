use liquid_rust::intern::{hash, Interner};
use liquid_rust::subst::{instantiate, Subst};
use liquid_rust::ty::{BaseTy, BinOp, Constant, ExprNode, IntTy, Sign, Sort, Ty, UintTy, UnOp};

#[test]
fn structurally_equal_expressions_share_a_handle() {
    let mut interner = Interner::new();
    let x = interner.intern(ExprNode::Free(0));
    let zero = interner.intern(ExprNode::Constant(Constant::Int(Sign::Positive, 0)));
    let le = interner.intern(ExprNode::BinaryOp(BinOp::Le, zero, x));
    let x_again = interner.intern(ExprNode::Free(0));
    let zero_again = interner.intern(ExprNode::Constant(Constant::Int(Sign::Positive, 0)));
    let le_again = interner.intern(ExprNode::BinaryOp(BinOp::Le, zero_again, x_again));
    assert_eq!(x, x_again);
    assert_eq!(zero, zero_again);
    assert_eq!(le, le_again);
    assert_eq!(interner.len(), 3);
    let ge = interner.intern(ExprNode::BinaryOp(BinOp::Le, x, zero));
    assert_ne!(le, ge);
    assert_eq!(interner.len(), 4);
}

#[test]
fn handles_are_given_in_order_and_nodes_stay() {
    let mut interner = Interner::new();
    assert_eq!(interner.len(), 0);
    assert_eq!(interner.find(ExprNode::Bound), None);
    let v = interner.intern(ExprNode::Bound);
    let k = interner.intern(ExprNode::Hole(3, v));
    let n = interner.intern(ExprNode::UnaryOp(UnOp::Not, k));
    assert_eq!((v, k, n), (0, 1, 2));
    assert_eq!(interner.get(v), ExprNode::Bound);
    assert_eq!(interner.get(k), ExprNode::Hole(3, 0));
    assert_eq!(interner.get(n), ExprNode::UnaryOp(UnOp::Not, 1));
    assert_eq!(interner.find(ExprNode::Hole(3, 0)), Some(1));
    assert_eq!(interner.find(ExprNode::Hole(4, 0)), None);
    assert_eq!(interner.find(ExprNode::Hole(3, 1)), None);
}

#[test]
fn identity_substitution_changes_nothing() {
    let mut interner = Interner::new();
    let x = interner.intern(ExprNode::Free(0));
    let y = interner.intern(ExprNode::Free(1));
    let v = interner.intern(ExprNode::Bound);
    let sum = interner.intern(ExprNode::BinaryOp(BinOp::Add, x, y));
    let pred = interner.intern(ExprNode::BinaryOp(BinOp::Eq, v, sum));
    let ty = Ty::Refine(BaseTy::Int(IntTy::I64), pred);
    let mut identity = Subst::new();
    identity.insert_expr(0, x);
    identity.insert_expr(1, y);
    identity.insert_region(5, 5);
    let before = interner.len();
    let once = identity.subst_ty(&mut interner, ty);
    let twice = identity.subst_ty(&mut interner, once);
    assert_eq!(once, ty);
    assert_eq!(twice, ty);
    assert_eq!(interner.len(), before);
    assert_eq!(identity.subst_ty(&mut interner, Ty::MutRef(5)), Ty::MutRef(5));
    assert_eq!(identity.subst_ty(&mut interner, Ty::Uninit), Ty::Uninit);
    // The empty substitution is an identity too.
    let empty = Subst::new();
    assert_eq!(empty.subst_ty(&mut interner, ty), ty);
    assert_eq!(interner.len(), before);
}

#[test]
fn substitution_replaces_bound_names_only() {
    let mut interner = Interner::new();
    let x = interner.intern(ExprNode::Free(0));
    let y = interner.intern(ExprNode::Free(1));
    let v = interner.intern(ExprNode::Bound);
    let k = interner.intern(ExprNode::Hole(0, x));
    let sum = interner.intern(ExprNode::BinaryOp(BinOp::Add, x, y));
    let pred = interner.intern(ExprNode::BinaryOp(BinOp::Eq, v, sum));
    let both = interner.intern(ExprNode::BinaryOp(BinOp::And, pred, k));
    let seven = interner.intern(ExprNode::Constant(Constant::Int(Sign::Positive, 7)));
    let mut subst = Subst::new();
    subst.insert_expr(0, seven);
    subst.insert_region(2, 9);
    assert_eq!(subst.lookup_expr(0), Some(seven));
    assert_eq!(subst.lookup_expr(1), None);
    assert_eq!(subst.lookup_region(2), Some(9));
    assert_eq!(subst.lookup_region(3), None);
    let r = subst.subst_expr(&mut interner, both);
    // (v == 7 + y) && $p0(7)
    let sum1 = interner.find(ExprNode::BinaryOp(BinOp::Add, seven, y)).unwrap();
    let pred1 = interner.find(ExprNode::BinaryOp(BinOp::Eq, v, sum1)).unwrap();
    let k1 = interner.find(ExprNode::Hole(0, seven)).unwrap();
    assert_eq!(interner.get(r), ExprNode::BinaryOp(BinOp::And, pred1, k1));
    assert_eq!(subst.subst_ty(&mut interner, Ty::MutRef(2)), Ty::MutRef(9));
    assert_eq!(subst.subst_ty(&mut interner, Ty::MutRef(3)), Ty::MutRef(3));
    assert_eq!(subst.subst_ty(&mut interner, Ty::Func(4)), Ty::Func(4));
    // A later binding of a name replaces the earlier one.
    subst.insert_expr(0, y);
    assert_eq!(subst.lookup_expr(0), Some(y));
    assert_eq!(subst.subst_expr(&mut interner, x), y);
}

#[test]
fn instantiation_replaces_the_binder() {
    let mut interner = Interner::new();
    let zero = interner.intern(ExprNode::Constant(Constant::Int(Sign::Positive, 0)));
    let v = interner.intern(ExprNode::Bound);
    let x = interner.intern(ExprNode::Free(4));
    let neg = interner.intern(ExprNode::UnaryOp(UnOp::Neg, v));
    let pred = interner.intern(ExprNode::BinaryOp(BinOp::Le, neg, x));
    let r = instantiate(&mut interner, pred, zero);
    let neg0 = interner.find(ExprNode::UnaryOp(UnOp::Neg, zero)).unwrap();
    assert_eq!(interner.get(r), ExprNode::BinaryOp(BinOp::Le, neg0, x));
    // A hole in a template is said of the binder, and of the value once
    // the template is used.
    let hole = interner.intern(ExprNode::Hole(2, v));
    let used = instantiate(&mut interner, hole, x);
    assert_eq!(interner.get(used), ExprNode::Hole(2, x));
    // A predicate without the binder is its own instance.
    assert_eq!(instantiate(&mut interner, used, zero), used);
    assert_eq!(instantiate(&mut interner, x, zero), x);
    assert_eq!(instantiate(&mut interner, v, zero), zero);
}

#[test]
fn literal_of_a_signed_integer() {
    assert_eq!(Constant::from_i128(0), Constant::Int(Sign::Positive, 0));
    assert_eq!(Constant::from_i128(17), Constant::Int(Sign::Positive, 17));
    assert_eq!(Constant::from_i128(-1), Constant::Int(Sign::Negative, 1));
    assert_eq!(Constant::from_i128(i128::MAX), Constant::Int(Sign::Positive, (1u128 << 127) - 1));
    assert_eq!(Constant::from_i128(i128::MIN), Constant::Int(Sign::Negative, 1u128 << 127));
    assert_eq!(Constant::from_u128(u128::MAX), Constant::Int(Sign::Positive, u128::MAX));
    assert_eq!(Constant::from_bool(true), Constant::Bool(true));
}

#[test]
fn literal_of_the_bits_of_a_machine_integer() {
    let i8_ty = BaseTy::Int(IntTy::I8);
    assert_eq!(Constant::from_bits(i8_ty, 0), Constant::Int(Sign::Positive, 0));
    assert_eq!(Constant::from_bits(i8_ty, 0x7f), Constant::Int(Sign::Positive, 127));
    assert_eq!(Constant::from_bits(i8_ty, 0x80), Constant::Int(Sign::Negative, 128));
    assert_eq!(Constant::from_bits(i8_ty, 0xff), Constant::Int(Sign::Negative, 1));
    // Bits beyond the width are taken as they are.
    assert_eq!(Constant::from_bits(i8_ty, 0x100), Constant::Int(Sign::Positive, 256));
    assert_eq!(Constant::from_bits(BaseTy::Int(IntTy::I32), 0xffff_fffe), Constant::Int(Sign::Negative, 2));
    assert_eq!(
        Constant::from_bits(BaseTy::Int(IntTy::I64), u64::MAX as u128),
        Constant::Int(Sign::Negative, 1)
    );
    assert_eq!(
        Constant::from_bits(BaseTy::Int(IntTy::Isize), 1u128 << 63),
        Constant::Int(Sign::Negative, 1u128 << 63)
    );
    assert_eq!(Constant::from_bits(BaseTy::Int(IntTy::I128), u128::MAX), Constant::Int(Sign::Negative, 1));
    assert_eq!(
        Constant::from_bits(BaseTy::Int(IntTy::I128), 1u128 << 127),
        Constant::Int(Sign::Negative, 1u128 << 127)
    );
    assert_eq!(
        Constant::from_bits(BaseTy::Int(IntTy::I16), 0x8000),
        Constant::Int(Sign::Negative, 0x8000)
    );
    assert_eq!(Constant::from_bits(BaseTy::Uint(UintTy::U8), 0xff), Constant::Int(Sign::Positive, 255));
    assert_eq!(Constant::from_bits(BaseTy::Bool, 1), Constant::Int(Sign::Positive, 1));
}

#[test]
fn sort_of_a_base_type() {
    assert_eq!(BaseTy::Bool.sort(), Sort::Bool);
    assert_eq!(BaseTy::Unit.sort(), Sort::Int);
    assert_eq!(BaseTy::Int(IntTy::I8).sort(), Sort::Int);
    assert_eq!(BaseTy::Uint(UintTy::Usize).sort(), Sort::Int);
}

#[test]
fn hash_depends_on_the_node_alone() {
    let nodes = [
        ExprNode::Bound,
        ExprNode::Free(0),
        ExprNode::Free(1),
        ExprNode::Constant(Constant::Bool(false)),
        ExprNode::Constant(Constant::Bool(true)),
        ExprNode::Constant(Constant::Int(Sign::Positive, 1)),
        ExprNode::Constant(Constant::Int(Sign::Negative, 1)),
        ExprNode::Hole(0, 1),
        ExprNode::Hole(1, 0),
        ExprNode::UnaryOp(UnOp::Not, 0),
        ExprNode::UnaryOp(UnOp::Neg, 0),
        ExprNode::BinaryOp(BinOp::Add, 0, 1),
        ExprNode::BinaryOp(BinOp::Add, 1, 0),
        ExprNode::BinaryOp(BinOp::Sub, 0, 1),
    ];
    for (i, a) in nodes.iter().enumerate() {
        assert_eq!(hash(*a), hash(*a));
        for b in &nodes[i + 1..] {
            assert_ne!(hash(*a), hash(*b));
        }
    }
    // (tag + 7 a + 13 b) mod 2^32
    assert_eq!(hash(ExprNode::Bound), 0);
    assert_eq!(hash(ExprNode::Free(3)), 1 + 7 * 3);
    assert_eq!(hash(ExprNode::Hole(2, 5)), 4 + 7 * 2 + 13 * 5);
    assert_eq!(hash(ExprNode::BinaryOp(BinOp::Div, 1, 2)), 7 + 11 + 7 + 26);
    assert_eq!(hash(ExprNode::Constant(Constant::Int(Sign::Negative, (1 << 32) + 2))), 3 + 14 + 13);
}

#[test]
fn nodes_of_one_hash_are_told_apart() {
    let mut interner = Interner::new();
    let far = 1usize.checked_shl(32).unwrap_or(0);
    let twins = [
        ExprNode::Free(5),
        ExprNode::Free(5usize.wrapping_add(far)),
        ExprNode::Constant(Constant::Int(Sign::Positive, 9)),
        ExprNode::Constant(Constant::Int(Sign::Positive, 9 + (1u128 << 32))),
        // 1 + 7 * 13 = 92 = 1 + 7 * 0 + 13 * 7: no node of tag 1 has a
        // second number, but holes and operators do.
        ExprNode::Hole(13, 0),
        ExprNode::Hole(0, 7),
    ];
    let handles: Vec<usize> = twins.iter().map(|node| interner.intern(*node)).collect();
    for (node, handle) in twins.iter().zip(&handles) {
        assert_eq!(interner.get(*handle), *node);
        assert_eq!(interner.find(*node), Some(*handle));
        assert_eq!(interner.intern(*node), *handle);
    }
    assert_eq!(hash(twins[2]), hash(twins[3]));
    assert_eq!(hash(twins[4]), hash(twins[5]));
    assert_ne!(handles[2], handles[3]);
    assert_ne!(handles[4], handles[5]);
    if far != 0 {
        assert_eq!(hash(twins[0]), hash(twins[1]));
        assert_ne!(handles[0], handles[1]);
        assert_eq!(interner.len(), 6);
    }
}

#[test]
fn node_with_a_child_that_is_not_there_is_turned_away() {
    let mut interner = Interner::new();
    assert_eq!(interner.try_intern(ExprNode::UnaryOp(UnOp::Not, 0)), None);
    assert_eq!(interner.try_intern(ExprNode::Bound), Some(0));
    assert_eq!(interner.try_intern(ExprNode::UnaryOp(UnOp::Not, 0)), Some(1));
    assert_eq!(interner.try_intern(ExprNode::BinaryOp(BinOp::And, 1, 2)), None);
    assert_eq!(interner.try_intern(ExprNode::BinaryOp(BinOp::And, 2, 1)), None);
    assert_eq!(interner.try_intern(ExprNode::Hole(0, 2)), None);
    assert_eq!(interner.try_intern(ExprNode::Hole(0, 1)), Some(2));
    assert_eq!(interner.try_intern(ExprNode::BinaryOp(BinOp::And, 1, 2)), Some(3));
    assert_eq!(interner.len(), 4);
    assert!(interner.admits(ExprNode::Free(99)));
    assert!(interner.admits(ExprNode::UnaryOp(UnOp::Neg, 3)));
    assert!(!interner.admits(ExprNode::UnaryOp(UnOp::Neg, 4)));
}

#[test]
fn a_list_is_stored_once() {
    let mut interner = Interner::new();
    let p = interner.intern(ExprNode::Free(0));
    let q = interner.intern(ExprNode::Free(1));
    let list = interner.conj(&vec![p, q]);
    let size = interner.len();
    assert_eq!(interner.conj(&vec![p, q]), list);
    assert_eq!(interner.len(), size);
    assert_ne!(interner.conj(&vec![q, p]), list);
    let end = interner.find(ExprNode::Nil).unwrap();
    let rest = interner.find(ExprNode::Cons(q, end)).unwrap();
    assert_eq!(interner.get(list), ExprNode::Cons(p, rest));
    assert_eq!(interner.conj(&vec![]), end);
    assert_eq!(interner.conj(&vec![q]), rest);
    assert!(interner.admits(ExprNode::Cons(p, q)));
    assert!(!interner.admits(ExprNode::Cons(p, 1000)));
    assert!(!interner.admits(ExprNode::Cons(1000, p)));
    assert_eq!(interner.try_intern(ExprNode::Cons(1000, p)), None);
    assert_ne!(hash(ExprNode::Cons(p, q)), hash(ExprNode::BinaryOp(BinOp::And, p, q)));
    assert_ne!(hash(ExprNode::Nil), hash(ExprNode::Bound));
}

#[test]
fn substitution_reaches_every_conjunct() {
    let mut interner = Interner::new();
    let v = interner.intern(ExprNode::Bound);
    let x = interner.intern(ExprNode::Free(0));
    let y = interner.intern(ExprNode::Free(1));
    let zero = interner.intern(ExprNode::Constant(Constant::Int(Sign::Positive, 0)));
    let low = interner.intern(ExprNode::BinaryOp(BinOp::Le, zero, v));
    let high = interner.intern(ExprNode::BinaryOp(BinOp::Lt, v, x));
    let list = interner.conj(&vec![low, high]);
    let image = instantiate(&mut interner, list, y);
    let low_y = interner.find(ExprNode::BinaryOp(BinOp::Le, zero, y)).unwrap();
    let high_y = interner.find(ExprNode::BinaryOp(BinOp::Lt, y, x)).unwrap();
    assert_eq!(image, interner.conj(&vec![low_y, high_y]));
    let mut subst = Subst::new();
    subst.insert_expr(0, zero);
    let image = subst.subst_expr(&mut interner, list);
    let high_zero = interner.find(ExprNode::BinaryOp(BinOp::Lt, v, zero)).unwrap();
    assert_eq!(image, interner.conj(&vec![low, high_zero]));
    let empty = interner.conj(&vec![]);
    assert_eq!(subst.subst_expr(&mut interner, empty), empty);
}
