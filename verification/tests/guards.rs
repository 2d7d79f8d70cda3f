use liquid_rust::checker::Checker;
use liquid_rust::constraint::{exact, ConstraintBuilder, Node, NodeKind};
use liquid_rust::env::Env;
use liquid_rust::intern::Interner;
use liquid_rust::ir::{Operand, Place};
use liquid_rust::result::TyError;
use liquid_rust::ty::{BaseTy, BinOp, Constant, ExprId, ExprNode, IntTy, Sign, Ty, UintTy, UnOp};

fn local(l: usize) -> Place {
    Place { local: l, derefs: 0 }
}

#[derive(Clone, Copy, Debug, PartialEq)]
enum Val {
    Int(i128),
    Bool(bool),
}

fn as_bool(v: Val) -> bool {
    match v {
        Val::Bool(b) => b,
        Val::Int(n) => n != 0,
    }
}

/// The value of a guard where the discriminant, the name 0, has the value
/// given.
fn eval(interner: &Interner, e: ExprId, discr: Val) -> Val {
    match interner.get(e) {
        ExprNode::Free(0) => discr,
        ExprNode::Constant(Constant::Bool(b)) => Val::Bool(b),
        ExprNode::Constant(Constant::Int(Sign::Positive, n)) => Val::Int(n as i128),
        ExprNode::Constant(Constant::Int(Sign::Negative, n)) => Val::Int(-(n as i128)),
        ExprNode::UnaryOp(UnOp::Not, a) => Val::Bool(!as_bool(eval(interner, a, discr))),
        ExprNode::BinaryOp(BinOp::Eq, a, b) => Val::Bool(eval(interner, a, discr) == eval(interner, b, discr)),
        ExprNode::BinaryOp(BinOp::And, a, b) => {
            Val::Bool(as_bool(eval(interner, a, discr)) && as_bool(eval(interner, b, discr)))
        }
        node => panic!("no guard is made of {:?}", node),
    }
}

struct Switch {
    interner: Interner,
    branches: Vec<ExprId>,
    otherwise: Option<ExprId>,
}

fn switch(bty: BaseTy, values: &[u128]) -> Switch {
    let mut interner = Interner::new();
    let mut builder = ConstraintBuilder::new();
    let mut cursor = builder.as_cursor();
    cursor.push_scope(&mut builder);
    let discr = interner.intern(ExprNode::Free(0));
    let discr_ty = exact(&mut interner, bty, discr);
    let env = Env::from_slots(0, vec![Ty::Uninit, discr_ty], vec![]);
    let branches: Vec<(u128, usize)> = values.iter().map(|v| (*v, 10 + *v as usize)).collect();
    let arms = Checker::check_switch_int(
        &mut interner,
        &mut builder,
        &cursor,
        env,
        &Operand::Move(local(1)),
        &branches,
        99,
    )
    .unwrap();
    // The next jump is the last: the branches in order, then `otherwise`.
    assert_eq!(arms.len(), values.len() + 1);
    let targets: Vec<usize> = arms.iter().rev().map(|arm| arm.target).collect();
    let mut expected: Vec<usize> = branches.iter().map(|b| b.1).collect();
    expected.push(99);
    assert_eq!(targets, expected);
    let mut guards = vec![];
    for (k, arm) in arms.iter().rev().enumerate() {
        assert!(!arm.main);
        // Every arm has the environment after the discriminant was read.
        assert_eq!(arm.env.lookup_place(local(1)), Err(TyError::Ownership(1)));
        if k == values.len() && values.is_empty() {
            assert_eq!(arm.cursor, cursor);
            continue;
        }
        let node = builder.node(arm.cursor.node);
        assert_eq!(node.parent, cursor.node);
        // The guards are siblings, in the order of the arms.
        assert_eq!(arm.cursor.node, cursor.node + 1 + k);
        match node.kind {
            NodeKind::Guard(g) => guards.push(g),
            kind => panic!("an arm stands under {:?}", kind),
        }
    }
    assert_eq!(builder.len(), 2 + guards.len());
    let otherwise = if values.is_empty() { None } else { guards.pop() };
    Switch { interner, branches: guards, otherwise }
}

fn exclusive_and_exhaustive(s: &Switch, discr: Val) {
    let taken: Vec<bool> = s.branches.iter().map(|g| as_bool(eval(&s.interner, *g, discr))).collect();
    match s.otherwise {
        Some(o) => {
            let other = as_bool(eval(&s.interner, o, discr));
            for t in &taken {
                assert!(!(other && *t));
            }
            assert!(other || taken.iter().any(|t| *t));
            assert_eq!(other, taken.iter().all(|t| !*t));
        }
        None => assert!(taken.is_empty()),
    }
}

#[test]
fn guards_of_a_boolean() {
    let s = switch(BaseTy::Bool, &[0]);
    let discr = s.interner.find(ExprNode::Free(0)).unwrap();
    let not = s.interner.find(ExprNode::UnaryOp(UnOp::Not, discr)).unwrap();
    assert_eq!(s.branches, vec![not]);
    assert_eq!(s.interner.get(s.otherwise.unwrap()), ExprNode::UnaryOp(UnOp::Not, not));
    for b in [false, true] {
        exclusive_and_exhaustive(&s, Val::Bool(b));
    }
    // The branch on a value that is not zero is the discriminant itself.
    let s = switch(BaseTy::Bool, &[1, 0]);
    let discr = s.interner.find(ExprNode::Free(0)).unwrap();
    let not = s.interner.find(ExprNode::UnaryOp(UnOp::Not, discr)).unwrap();
    assert_eq!(s.branches, vec![discr, not]);
    let not_not = s.interner.find(ExprNode::UnaryOp(UnOp::Not, not)).unwrap();
    assert_eq!(s.interner.get(s.otherwise.unwrap()), ExprNode::BinaryOp(BinOp::And, not, not_not));
    for b in [false, true] {
        exclusive_and_exhaustive(&s, Val::Bool(b));
        assert!(!as_bool(eval(&s.interner, s.otherwise.unwrap(), Val::Bool(b))));
    }
}

#[test]
fn guards_of_an_integer() {
    let s = switch(BaseTy::Uint(UintTy::U8), &[0, 3, 200]);
    let discr = s.interner.find(ExprNode::Free(0)).unwrap();
    for (g, value) in s.branches.iter().zip([0, 3, 200]) {
        let k = s.interner.find(ExprNode::Constant(Constant::Int(Sign::Positive, value))).unwrap();
        assert_eq!(s.interner.get(*g), ExprNode::BinaryOp(BinOp::Eq, discr, k));
    }
    // ((not g0 && not g1) && not g2)
    let nots: Vec<ExprId> =
        s.branches.iter().map(|g| s.interner.find(ExprNode::UnaryOp(UnOp::Not, *g)).unwrap()).collect();
    let first = s.interner.find(ExprNode::BinaryOp(BinOp::And, nots[0], nots[1])).unwrap();
    assert_eq!(s.interner.get(s.otherwise.unwrap()), ExprNode::BinaryOp(BinOp::And, first, nots[2]));
    for x in 0..=255 {
        exclusive_and_exhaustive(&s, Val::Int(x));
    }
}

#[test]
fn guards_of_a_signed_integer_read_the_bits_in_twos_complement() {
    let s = switch(BaseTy::Int(IntTy::I8), &[0xff, 0x80, 0x7f]);
    let discr = s.interner.find(ExprNode::Free(0)).unwrap();
    let literals = [
        Constant::Int(Sign::Negative, 1),
        Constant::Int(Sign::Negative, 128),
        Constant::Int(Sign::Positive, 127),
    ];
    for (g, c) in s.branches.iter().zip(literals) {
        let k = s.interner.find(ExprNode::Constant(c)).unwrap();
        assert_eq!(s.interner.get(*g), ExprNode::BinaryOp(BinOp::Eq, discr, k));
    }
    for x in -128..=127 {
        exclusive_and_exhaustive(&s, Val::Int(x));
    }
    assert!(as_bool(eval(&s.interner, s.branches[0], Val::Int(-1))));
    assert!(as_bool(eval(&s.interner, s.otherwise.unwrap(), Val::Int(5))));
}

#[test]
fn branch_without_branches_goes_to_otherwise_unguarded() {
    let s = switch(BaseTy::Int(IntTy::I32), &[]);
    assert_eq!(s.branches, vec![]);
    assert_eq!(s.otherwise, None);
    exclusive_and_exhaustive(&s, Val::Int(0));
}

#[test]
fn one_value_in_two_branches() {
    let s = switch(BaseTy::Int(IntTy::I32), &[4, 4]);
    assert_eq!(s.branches[0], s.branches[1]);
    for x in 0..8 {
        exclusive_and_exhaustive(&s, Val::Int(x));
    }
}

#[test]
fn discriminant_must_be_a_boolean_or_an_integer() {
    let mut interner = Interner::new();
    let mut builder = ConstraintBuilder::new();
    let cursor = builder.as_cursor();
    let e = interner.intern(ExprNode::Free(0));
    let unit = exact(&mut interner, BaseTy::Unit, e);
    // A boolean of which nothing but a predicate is known.
    let some = Ty::Refine(BaseTy::Bool, e);
    for ty in [unit, some, Ty::MutRef(0), Ty::Func(0)] {
        let env = Env::from_slots(0, vec![ty], vec![ty]);
        assert!(!Checker::ty_switchable(&interner, ty));
        assert!(!Checker::switchable(&interner, &env, &Operand::Copy(local(0))));
        assert!(!Checker::switchable(&interner, &env, &Operand::Move(local(0))));
    }
    let flag = exact(&mut interner, BaseTy::Bool, e);
    let count = exact(&mut interner, BaseTy::Uint(UintTy::U8), e);
    for ty in [flag, count] {
        let env = Env::from_slots(0, vec![ty], vec![]);
        assert!(Checker::ty_switchable(&interner, ty));
        assert!(Checker::switchable(&interner, &env, &Operand::Copy(local(0))));
        assert!(Checker::switchable(&interner, &env, &Operand::Move(local(0))));
    }
    let env = Env::from_slots(0, vec![Ty::Uninit], vec![]);
    assert!(Checker::switchable(&interner, &env, &Operand::Constant(liquid_rust::ir::Constant::Bool(true))));
    // A place that cannot be read is no fault of the discriminant: the
    // rule itself reports it.
    assert!(Checker::switchable(&interner, &env, &Operand::Copy(local(0))));
    let env = Env::from_slots(0, vec![Ty::Uninit], vec![]);
    let r = Checker::check_switch_int(
        &mut interner,
        &mut builder,
        &cursor,
        env,
        &Operand::Copy(local(0)),
        &vec![(0, 1)],
        2,
    );
    assert!(matches!(r, Err(TyError::Ownership(0))));
    assert_eq!(builder.len(), 1);
    assert_eq!(builder.node(0), Node { parent: 0, kind: NodeKind::Scope });
}

#[test]
fn guards_of_different_bits_never_both_hold() {
    let mut interner = Interner::new();
    let discr = interner.intern(ExprNode::Free(0));
    let bty = BaseTy::Int(IntTy::I8);
    let bits = [0u128, 1, 127, 128, 255, 256];
    let guards: Vec<ExprId> = bits.iter().map(|b| Checker::mk_guard(&mut interner, bty, discr, *b)).collect();
    let otherwise = Checker::mk_otherwise(&mut interner, &guards).unwrap();
    // The numbers that the bits stand for in eight bits, two's complement.
    let values = [0i128, 1, 127, -128, -1, 256];
    for x in -130..260 {
        let holding: Vec<bool> = guards.iter().map(|g| as_bool(eval(&interner, *g, Val::Int(x)))).collect();
        for (k, value) in values.iter().enumerate() {
            assert_eq!(holding[k], x == *value);
        }
        assert!(holding.iter().filter(|h| **h).count() <= 1);
        assert_eq!(as_bool(eval(&interner, otherwise, Val::Int(x))), holding.iter().all(|h| !*h));
    }
    assert_eq!(Checker::mk_otherwise(&mut interner, &vec![]), None);
}
