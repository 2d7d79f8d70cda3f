use liquid_rust::constraint::{exact, value_of, ConstraintBuilder, NodeKind};
use liquid_rust::env::{Env, Slot};
use liquid_rust::intern::Interner;
use liquid_rust::ir::{Constant as IrConstant, Operand, Place, Rvalue};
use liquid_rust::result::{located, Located, Span, TyError};
use liquid_rust::ty::{BaseTy, BinOp, Constant, ExprNode, IntTy, Sign, Sort, Ty};

const I32: BaseTy = BaseTy::Int(IntTy::I32);

fn at(lo: u32, hi: u32) -> Span {
    Span { lo, hi }
}

fn local(l: usize) -> Place {
    Place { local: l, derefs: 0 }
}

fn deref(l: usize) -> Place {
    Place { local: l, derefs: 1 }
}

fn five(interner: &mut Interner) -> Ty {
    let e = interner.intern(ExprNode::Constant(Constant::Int(Sign::Positive, 5)));
    exact(interner, I32, e)
}

fn six(interner: &mut Interner) -> Ty {
    let e = interner.intern(ExprNode::Constant(Constant::Int(Sign::Positive, 6)));
    exact(interner, I32, e)
}

#[test]
fn fresh_locals_hold_nothing() {
    let env = Env::with_locals(3, 2);
    assert_eq!(env.func_id(), 3);
    assert_eq!(env.num_locals(), 2);
    assert_eq!(env.num_regions(), 0);
    assert_eq!(env.lookup_local(0), Some(Ty::Uninit));
    assert_eq!(env.lookup_local(2), None);
    assert_eq!(env.lookup_place(local(0)), Err(TyError::Ownership(0)));
    assert_eq!(env.lookup_place(local(1)), Err(TyError::Ownership(1)));
    assert_eq!(env.lookup_place(local(2)), Err(TyError::Malformed));
}

#[test]
fn writing_a_local_binds_it_to_a_new_identifier() {
    let mut interner = Interner::new();
    let mut env = Env::with_locals(0, 2);
    let first = env.resolve_local(1);
    assert_eq!(env.define_local(1, five(&mut interner)), Ok(()));
    let second = env.resolve_local(1);
    assert_eq!(env.write_place(local(1), six(&mut interner)), Ok(()));
    let third = env.resolve_local(1);
    assert!(first != second && second != third && first != third);
    // Every identifier keeps the type it was given.
    assert_eq!(env.get_ty(first), Ty::Uninit);
    assert_eq!(env.get_ty(second), five(&mut interner));
    assert_eq!(env.get_ty(third), six(&mut interner));
    assert_eq!(env.lookup_place(local(1)), Ok(six(&mut interner)));
    assert_eq!(env.num_variables(), 4);
    assert_eq!(env.define_local(2, Ty::Uninit), Err(TyError::Malformed));
    assert_eq!(env.write_place(local(9), Ty::Uninit), Err(TyError::Malformed));
}

#[test]
fn moved_place_cannot_be_read_until_it_is_written() {
    let mut interner = Interner::new();
    let mut env = Env::with_locals(0, 2);
    env.define_local(1, five(&mut interner)).unwrap();
    assert_eq!(env.lookup_place(local(1)), Ok(five(&mut interner)));
    assert_eq!(env.lookup_place(local(1)), Ok(five(&mut interner)));
    assert_eq!(env.move_place(local(1)), Ok(five(&mut interner)));
    assert_eq!(env.lookup_place(local(1)), Err(TyError::Ownership(1)));
    assert_eq!(env.move_place(local(1)), Err(TyError::Ownership(1)));
    assert_eq!(env.move_place(local(1)), Err(TyError::Ownership(1)));
    env.write_place(local(1), six(&mut interner)).unwrap();
    assert_eq!(env.lookup_place(local(1)), Ok(six(&mut interner)));
}

#[test]
fn moved_place_behind_a_reference_cannot_be_read() {
    let mut interner = Interner::new();
    let mut env = Env::with_locals(0, 3);
    env.define_local(1, five(&mut interner)).unwrap();
    let region = env.get_region(local(1)).unwrap();
    env.define_local(2, Ty::MutRef(region)).unwrap();
    assert_eq!(env.move_place(deref(2)), Ok(five(&mut interner)));
    assert_eq!(env.lookup_place(deref(2)), Err(TyError::Ownership(2)));
    assert_eq!(env.move_place(deref(2)), Err(TyError::Ownership(2)));
    // The reference itself is still there.
    assert_eq!(env.lookup_place(local(2)), Ok(Ty::MutRef(region)));
    assert_eq!(env.lookup_region(region), Some(Ty::Uninit));
}

#[test]
fn writing_a_clone_leaves_the_environment_it_was_cloned_from() {
    let mut interner = Interner::new();
    let mut env = Env::with_locals(0, 2);
    env.define_local(1, five(&mut interner)).unwrap();
    let region = env.push_region(five(&mut interner));
    let mut copy = env.clone();
    copy.write_place(local(1), six(&mut interner)).unwrap();
    copy.update_region(region, six(&mut interner)).unwrap();
    copy.write_place(local(0), Ty::MutRef(region)).unwrap();
    assert_eq!(env.lookup_place(local(1)), Ok(five(&mut interner)));
    assert_eq!(env.lookup_region(region), Some(five(&mut interner)));
    assert_eq!(env.lookup_local(0), Some(Ty::Uninit));
    assert_eq!(env.num_variables(), 3);
    assert_eq!(copy.lookup_place(local(1)), Ok(six(&mut interner)));
    assert_eq!(copy.lookup_region(region), Some(six(&mut interner)));
}

#[test]
fn saved_locals_come_back_and_regions_stay() {
    let mut interner = Interner::new();
    let mut env = Env::with_locals(0, 2);
    env.define_local(1, five(&mut interner)).unwrap();
    let region = env.push_region(five(&mut interner));
    let saved = env.saved_locals();
    env.write_place(local(1), six(&mut interner)).unwrap();
    env.move_place(local(1)).unwrap();
    env.update_region(region, six(&mut interner)).unwrap();
    assert_eq!(env.restore(saved), Ok(()));
    assert_eq!(env.lookup_place(local(1)), Ok(five(&mut interner)));
    assert_eq!(env.lookup_region(region), Some(six(&mut interner)));
    // A table of another environment does not fit.
    assert_eq!(env.restore(vec![0]), Err(TyError::Malformed));
    assert_eq!(env.restore(vec![0, 99]), Err(TyError::Malformed));
    assert_eq!(env.lookup_place(local(1)), Ok(five(&mut interner)));
}

#[test]
fn references_are_followed_to_their_regions() {
    let mut interner = Interner::new();
    let mut env = Env::with_locals(0, 4);
    env.define_local(1, five(&mut interner)).unwrap();
    assert_eq!(env.get_region(local(0)), Err(TyError::Ownership(0)));
    assert_eq!(env.num_regions(), 0);
    let inner = env.get_region(local(1)).unwrap();
    env.define_local(2, Ty::MutRef(inner)).unwrap();
    let outer = env.get_region(local(2)).unwrap();
    env.define_local(3, Ty::MutRef(outer)).unwrap();
    assert_eq!((inner, outer), (0, 1));
    assert_eq!(env.lookup_region(inner), Some(five(&mut interner)));
    assert_eq!(env.lookup_region(outer), Some(Ty::MutRef(inner)));
    assert_eq!(env.lookup_region(2), None);
    assert_eq!(env.resolve(local(3)), Ok(Slot::Local(3)));
    assert_eq!(env.resolve(Place { local: 3, derefs: 1 }), Ok(Slot::Region(outer)));
    assert_eq!(env.resolve(Place { local: 3, derefs: 2 }), Ok(Slot::Region(inner)));
    assert_eq!(env.lookup_place(Place { local: 3, derefs: 2 }), Ok(five(&mut interner)));
    // A value that is no reference cannot be dereferenced.
    assert_eq!(env.resolve(Place { local: 3, derefs: 3 }), Err(TyError::Malformed));
    assert_eq!(env.resolve(deref(1)), Err(TyError::Malformed));
    assert_eq!(env.resolve(deref(0)), Err(TyError::Ownership(0)));
    // Writing through the reference updates the region, not the local.
    env.write_place(Place { local: 3, derefs: 2 }, six(&mut interner)).unwrap();
    assert_eq!(env.lookup_region(inner), Some(six(&mut interner)));
    assert_eq!(env.lookup_place(local(1)), Ok(five(&mut interner)));
    assert_eq!(env.update_region(7, Ty::Uninit), Err(TyError::Malformed));
    // A reference to a region that is not there leads nowhere.
    env.define_local(0, Ty::MutRef(40)).unwrap();
    assert_eq!(env.resolve(deref(0)), Err(TyError::Malformed));
}

#[test]
fn tables_must_fit() {
    let ok = Env::new(1, vec![1, 0], vec![Ty::Uninit, Ty::MutRef(0)]).unwrap();
    assert_eq!(ok.lookup_local(0), Some(Ty::MutRef(0)));
    assert_eq!(ok.lookup_local(1), Some(Ty::Uninit));
    assert!(matches!(Env::new(1, vec![0, 2], vec![Ty::Uninit, Ty::Uninit]), Err(TyError::Malformed)));
    let empty = Env::new(1, vec![], vec![]).unwrap();
    assert_eq!(empty.num_locals(), 0);
}

#[test]
fn slots_are_listed_locals_first() {
    let mut interner = Interner::new();
    let env = Env::from_slots(0, vec![Ty::Uninit, five(&mut interner)], vec![six(&mut interner)]);
    assert_eq!(
        env.iter(),
        vec![
            (Slot::Local(0), Ty::Uninit),
            (Slot::Local(1), five(&mut interner)),
            (Slot::Region(0), six(&mut interner)),
        ]
    );
    assert!(env.has_slot(Slot::Local(1)));
    assert!(!env.has_slot(Slot::Local(2)));
    assert!(env.has_slot(Slot::Region(0)));
    assert!(!env.has_slot(Slot::Region(1)));
    assert_eq!(env.slot_ty(Slot::Region(0)), six(&mut interner));
}

#[test]
fn unpacking_names_what_predicates_describe() {
    let mut interner = Interner::new();
    let mut builder = ConstraintBuilder::new();
    let mut cursor = builder.as_cursor();
    let v = interner.intern(ExprNode::Bound);
    let zero = interner.intern(ExprNode::Constant(Constant::Int(Sign::Positive, 0)));
    let non_negative = interner.intern(ExprNode::BinaryOp(BinOp::Le, zero, v));
    let hole = interner.intern(ExprNode::Hole(0, v));
    let mut env = Env::from_slots(
        0,
        vec![Ty::Refine(I32, non_negative), five(&mut interner), Ty::Uninit],
        vec![Ty::Refine(BaseTy::Bool, hole), Ty::MutRef(0)],
    );
    env.unpack(&mut interner, &mut builder, &mut cursor);
    let a0 = interner.find(ExprNode::Free(0)).unwrap();
    let a1 = interner.find(ExprNode::Free(1)).unwrap();
    assert_eq!(env.lookup_local(0), Some(exact(&mut interner, I32, a0)));
    assert_eq!(env.lookup_local(1), Some(five(&mut interner)));
    assert_eq!(env.lookup_local(2), Some(Ty::Uninit));
    assert_eq!(env.lookup_region(0), Some(exact(&mut interner, BaseTy::Bool, a1)));
    assert_eq!(env.lookup_region(1), Some(Ty::MutRef(0)));
    let hyp = interner.find(ExprNode::BinaryOp(BinOp::Le, zero, a0)).unwrap();
    assert_eq!(builder.len(), 3);
    assert_eq!(builder.node(1).kind, NodeKind::ForAll(0, Sort::Int, hyp));
    assert_eq!(builder.node(1).parent, 0);
    let said_of_a1 = interner.find(ExprNode::Hole(0, a1)).unwrap();
    assert_eq!(builder.node(2).kind, NodeKind::ForAll(1, Sort::Bool, said_of_a1));
    assert_eq!(builder.node(2).parent, 1);
    assert_eq!(cursor.node, 2);
    assert_eq!(builder.sort_of(0), Sort::Int);
    assert_eq!(builder.sort_of(1), Sort::Bool);
}

#[test]
fn operand_stands_for_an_expression() {
    let mut interner = Interner::new();
    let mut env = Env::with_locals(0, 3);
    env.define_local(1, five(&mut interner)).unwrap();
    env.define_local(2, Ty::MutRef(0)).unwrap();
    let e = interner.find(ExprNode::Constant(Constant::Int(Sign::Positive, 5))).unwrap();
    assert_eq!(env.resolve_operand(&mut interner, &Operand::Copy(local(1))), Ok(e));
    // Resolving does not consume.
    assert_eq!(env.resolve_operand(&mut interner, &Operand::Move(local(1))), Ok(e));
    assert_eq!(env.lookup_place(local(1)), Ok(five(&mut interner)));
    assert_eq!(
        env.resolve_operand(&mut interner, &Operand::Copy(local(2))),
        Err(TyError::Operand(Ty::MutRef(0)))
    );
    assert_eq!(env.resolve_operand(&mut interner, &Operand::Copy(local(0))), Err(TyError::Ownership(0)));
    let t = env.resolve_operand(&mut interner, &Operand::Constant(IrConstant::Bool(true))).unwrap();
    assert_eq!(interner.get(t), ExprNode::Constant(Constant::Bool(true)));
}

#[test]
fn annotated_local_is_named_and_bound() {
    let mut interner = Interner::new();
    let mut builder = ConstraintBuilder::new();
    let mut cursor = builder.as_cursor();
    let mut env = Env::with_locals(0, 2);
    let v = interner.intern(ExprNode::Bound);
    let zero = interner.intern(ExprNode::Constant(Constant::Int(Sign::Positive, 0)));
    let positive = interner.intern(ExprNode::BinaryOp(BinOp::Lt, zero, v));
    assert_eq!(
        env.annotate_local(&mut interner, &mut builder, &mut cursor, 1, Ty::Refine(I32, positive)),
        Ok(())
    );
    let a0 = interner.find(ExprNode::Free(0)).unwrap();
    assert_eq!(value_of(&interner, env.lookup_place(local(1)).unwrap()), Some((I32, a0)));
    let hyp = interner.find(ExprNode::BinaryOp(BinOp::Lt, zero, a0)).unwrap();
    assert_eq!(builder.node(cursor.node).kind, NodeKind::ForAll(0, Sort::Int, hyp));
    assert_eq!(
        env.annotate_local(&mut interner, &mut builder, &mut cursor, 5, Ty::Uninit),
        Err(TyError::Malformed)
    );
}

#[test]
fn subtyping_of_other_shapes_is_a_mismatch() {
    let mut interner = Interner::new();
    let mut builder = ConstraintBuilder::new();
    let cursor = builder.as_cursor();
    let env = Env::with_locals(0, 1);
    let five = five(&mut interner);
    let t = interner.intern(ExprNode::Constant(Constant::Bool(true)));
    let truth = exact(&mut interner, BaseTy::Bool, t);
    assert_eq!(
        env.is_subtype(&mut interner, &mut builder, &cursor, five, truth, at(3, 9)),
        Err(Located { kind: TyError::ShapeMismatch { expected: five, found: truth }, span: at(3, 9) })
    );
    assert_eq!(
        env.is_subtype(&mut interner, &mut builder, &cursor, Ty::MutRef(0), Ty::MutRef(0), at(0, 0)),
        Err(Located {
            kind: TyError::ShapeMismatch { expected: Ty::MutRef(0), found: Ty::MutRef(0) },
            span: at(0, 0)
        })
    );
    assert_eq!(
        env.is_subtype(&mut interner, &mut builder, &cursor, Ty::Func(1), Ty::Func(1), at(7, 8)),
        Err(Located { kind: TyError::ShapeMismatch { expected: Ty::Func(1), found: Ty::Func(1) }, span: at(7, 8) })
    );
    assert_eq!(builder.len(), 1);
    assert_eq!(env.is_subtype(&mut interner, &mut builder, &cursor, five, five, at(1, 2)), Ok(()));
    assert_eq!(located(Ok::<u8, TyError>(4), at(1, 2)), Ok(4));
    assert_eq!(
        located(Err::<u8, TyError>(TyError::Malformed), at(1, 2)),
        Err(Located { kind: TyError::Malformed, span: at(1, 2) })
    );
    assert_eq!(builder.len(), 2);
}

#[test]
fn right_hand_side_is_checked_against_a_type() {
    let mut interner = Interner::new();
    let mut builder = ConstraintBuilder::new();
    let cursor = builder.as_cursor();
    let mut env = Env::with_locals(0, 2);
    env.define_local(1, five(&mut interner)).unwrap();
    let v = interner.intern(ExprNode::Bound);
    let zero = interner.intern(ExprNode::Constant(Constant::Int(Sign::Positive, 0)));
    let positive = interner.intern(ExprNode::BinaryOp(BinOp::Lt, zero, v));
    let term = Rvalue::Use(Operand::Move(local(1)));
    assert_eq!(
        env.check_syn(&mut interner, &mut builder, &cursor, &term, Ty::Refine(I32, positive), at(4, 6)),
        Ok(())
    );
    let five_e = interner.find(ExprNode::Constant(Constant::Int(Sign::Positive, 5))).unwrap();
    let goal = interner.find(ExprNode::BinaryOp(BinOp::Lt, zero, five_e)).unwrap();
    assert_eq!(builder.node(1).kind, NodeKind::Head(goal));
    // The operand was moved.
    assert_eq!(
        env.check_syn(&mut interner, &mut builder, &cursor, &term, Ty::Refine(I32, positive), at(4, 6)),
        Err(Located { kind: TyError::Ownership(1), span: at(4, 6) })
    );
    // A right-hand side of another shape is a mismatch at the place given.
    let truth = Rvalue::Use(Operand::Constant(IrConstant::Bool(true)));
    let t = interner.intern(ExprNode::Constant(Constant::Bool(true)));
    let found = Ty::Refine(I32, positive);
    assert_eq!(
        env.check_syn(&mut interner, &mut builder, &cursor, &truth, found, at(10, 14)),
        Err(Located {
            kind: TyError::ShapeMismatch { expected: exact(&mut interner, BaseTy::Bool, t), found },
            span: at(10, 14)
        })
    );
}

#[test]
fn a_branch_that_succeeds_gives_the_locals_back() {
    let mut interner = Interner::new();
    let mut env = Env::with_locals(0, 2);
    env.define_local(1, five(&mut interner)).unwrap();
    let region = env.push_region(five(&mut interner));
    let six = six(&mut interner);
    let (env, r) = env.fork(|mut branch: Env| {
        branch.write_place(local(1), six).unwrap();
        let moved = branch.move_place(local(1));
        branch.update_region(region, six).unwrap();
        (branch, moved)
    });
    assert_eq!(r, Ok(six));
    // The local reads as before the branch; the region as the branch left
    // it.
    assert_eq!(env.lookup_place(local(1)), Ok(five(&mut interner)));
    assert_eq!(env.lookup_region(region), Some(six));
}

#[test]
fn a_branch_that_fails_gives_the_locals_back_too() {
    let mut interner = Interner::new();
    let mut env = Env::with_locals(0, 2);
    env.define_local(1, five(&mut interner)).unwrap();
    let region = env.push_region(five(&mut interner));
    let six = six(&mut interner);
    let before = env.saved_locals();
    let (env, r) = env.fork(|mut branch: Env| {
        branch.write_place(local(1), six).unwrap();
        branch.update_region(region, six).unwrap();
        let r = branch.lookup_place(local(0));
        (branch, r)
    });
    // The error is that of the branch; the local reads as before the
    // branch, the region as the branch left it.
    assert_eq!(r, Err(TyError::Ownership(0)));
    assert_eq!(env.saved_locals(), before);
    assert_eq!(env.lookup_place(local(1)), Ok(five(&mut interner)));
    assert_eq!(env.lookup_region(region), Some(six));
}

#[test]
fn a_table_that_does_not_fit_is_not_put_back() {
    let env = Env::with_locals(0, 2);
    // A branch that hands back another environment cannot have the table
    // put back.
    let (other, r) = env.fork(|_: Env| (Env::with_locals(0, 5), Ok(1)));
    assert_eq!(r, Err(TyError::Malformed));
    assert_eq!(other.num_locals(), 5);
    // Where such a branch fails, the error is its own.
    let (other, r) = other.fork(|_: Env| (Env::with_locals(0, 1), Err::<u8, TyError>(TyError::Ownership(3))));
    assert_eq!(r, Err(TyError::Ownership(3)));
    assert_eq!(other.num_locals(), 1);
}
