use liquid_rust::checker::Checker;
use liquid_rust::constraint::{ConstraintBuilder, NodeKind};
use liquid_rust::env::Slot;
use liquid_rust::global_env::{FnSig, FunSpec, GlobalEnv, Param};
use liquid_rust::intern::Interner;
use liquid_rust::ir::{
    BasicBlockData, BinOp as IrBinOp, Body, Constant as IrConstant, Operand, Place, Rvalue, Statement,
    Terminator, TerminatorKind,
};
use liquid_rust::result::{Span, TyError};
use liquid_rust::ty::{BaseTy, BinOp, Constant, ExprId, ExprNode, IntTy, Sign, Sort, Ty};
use rustc_hash::FxHashMap;

const I32: BaseTy = BaseTy::Int(IntTy::I32);

fn local(l: usize) -> Place {
    Place { local: l, derefs: 0 }
}

fn number(n: i128) -> Operand {
    Operand::Constant(IrConstant::Int(n, IntTy::I32))
}

fn block(statements: Vec<Statement>, kind: TerminatorKind) -> BasicBlockData {
    BasicBlockData { statements, terminator: Some(Terminator { kind, source_info: Span { lo: 0, hi: 0 } }) }
}

fn goto(target: usize) -> TerminatorKind {
    TerminatorKind::Goto { target }
}

fn assign(l: usize, rvalue: Rvalue) -> Statement {
    Statement::Assign(local(l), rvalue)
}

fn truth(interner: &mut Interner, b: bool) -> ExprId {
    interner.intern(ExprNode::Constant(Constant::Bool(b)))
}

fn lit(interner: &mut Interner, n: u128) -> ExprId {
    interner.intern(ExprNode::Constant(Constant::Int(Sign::Positive, n)))
}

fn any_i32(interner: &mut Interner) -> Ty {
    Ty::Refine(I32, truth(interner, true))
}

/// `fn() -> i32`
fn plain_sig(interner: &mut Interner) -> FnSig {
    FnSig { params: vec![], requires: vec![], args: vec![], ret: any_i32(interner), ensures: vec![] }
}

fn no_functions() -> GlobalEnv {
    GlobalEnv::new(FxHashMap::default())
}

fn check(body: &Body, sig: &FnSig, interner: Interner) -> (Interner, Result<ConstraintBuilder, TyError>) {
    Checker::check(&no_functions(), body, sig, 0, interner)
}

fn straight(blocks: Vec<BasicBlockData>, nlocals: usize) -> Body {
    let n = blocks.len();
    Body {
        basic_blocks: blocks,
        nlocals,
        nargs: 0,
        reverse_postorder: (0..n).collect(),
        immediate_dominators: vec![0; n],
    }
}

#[test]
fn join_points_are_blocks_with_more_than_one_predecessor() {
    let body = straight(
        vec![
            block(
                vec![],
                TerminatorKind::SwitchInt { discr: number(0), branches: vec![(0, 1), (1, 2), (2, 2)], otherwise: 3 },
            ),
            block(vec![], goto(3)),
            block(
                vec![],
                TerminatorKind::Call { func: 0, substs: vec![], args: vec![], destination: Some((local(0), 4)) },
            ),
            block(vec![], TerminatorKind::Drop { place: local(0), target: 4 }),
            block(vec![], TerminatorKind::Return),
            BasicBlockData { statements: vec![], terminator: None },
            block(vec![], TerminatorKind::Call { func: 0, substs: vec![], args: vec![], destination: None }),
        ],
        1,
    );
    let joins: Vec<bool> = (0..8).map(|bb| body.is_join_point(bb)).collect();
    // Two branches lead to block 2: two edges. Block 1 has one edge, the
    // start block none, and there is no block 7.
    assert_eq!(joins, vec![false, false, true, true, true, false, false, false]);
    assert_eq!(body.join_points(), vec![2, 3, 4]);
}

#[test]
fn straight_line_body() {
    let mut interner = Interner::new();
    let sig = plain_sig(&mut interner);
    let body = straight(
        vec![
            block(vec![assign(1, Rvalue::Use(number(4)))], goto(1)),
            block(vec![assign(0, Rvalue::BinaryOp(IrBinOp::Div, number(8), Operand::Move(local(1))))], goto(2)),
            block(vec![Statement::Nop], TerminatorKind::Return),
        ],
        2,
    );
    let (interner, r) = check(&body, &sig, interner);
    assert_eq!(r.unwrap().to_fixpoint(&interner), "(constraint (and ((4 != 0)) ((true))))\n");
}

#[test]
fn block_without_terminator_ends_the_path() {
    let mut interner = Interner::new();
    let sig = plain_sig(&mut interner);
    let body = straight(
        vec![BasicBlockData {
            statements: vec![assign(0, Rvalue::BinaryOp(IrBinOp::Div, number(8), number(2)))],
            terminator: None,
        }],
        1,
    );
    let (interner, r) = check(&body, &sig, interner);
    assert_eq!(r.unwrap().to_fixpoint(&interner), "(constraint (and ((2 != 0))))\n");
}

#[test]
fn return_place_must_hold_the_return_type() {
    let mut interner = Interner::new();
    let v = interner.intern(ExprNode::Bound);
    let zero = lit(&mut interner, 0);
    let positive = interner.intern(ExprNode::BinaryOp(BinOp::Lt, zero, v));
    let sig = FnSig { ret: Ty::Refine(I32, positive), ..plain_sig(&mut interner) };
    let returning = |rvalue| straight(vec![block(vec![assign(0, rvalue)], TerminatorKind::Return)], 2);
    let (interner, r) = check(&returning(Rvalue::Use(number(7))), &sig, interner);
    assert_eq!(r.unwrap().to_fixpoint(&interner), "(constraint (and ((0 < 7))))\n");
    // A boolean where a number is to be returned.
    let (interner, r) = check(&returning(Rvalue::Use(Operand::Constant(IrConstant::Bool(true)))), &sig, interner);
    assert!(matches!(r, Err(TyError::ShapeMismatch { .. })));
    // Nothing was written to the return place.
    let (_, r) = check(&straight(vec![block(vec![], TerminatorKind::Return)], 1), &sig, interner);
    assert!(matches!(r, Err(TyError::ShapeMismatch { expected: Ty::Uninit, .. })));
}

/// A block that returns 1.
fn done() -> BasicBlockData {
    block(vec![assign(0, Rvalue::Use(number(1)))], TerminatorKind::Return)
}

#[test]
fn malformed_bodies() {
    let mut interner = Interner::new();
    let sig = plain_sig(&mut interner);
    let malformed = |interner: Interner, body: Body| {
        let (interner, r) = check(&body, &sig, interner);
        assert!(matches!(r, Err(TyError::Malformed)), "{:?}", body);
        interner
    };
    // No block at all.
    let interner = malformed(interner, straight(vec![], 1));
    // A jump out of the body.
    let interner = malformed(interner, straight(vec![block(vec![], goto(1))], 1));
    // A block that is reached twice and is no join point.
    let interner = malformed(interner, straight(vec![block(vec![], goto(0))], 1));
    let interner = malformed(
        interner,
        straight(vec![block(vec![], goto(1)), block(vec![], goto(0))], 1),
    );
    // A block of the reverse postorder that is not there, or that no jump
    // leads to.
    let mut body = straight(vec![done()], 1);
    body.reverse_postorder = vec![0, 1];
    let interner = malformed(interner, body);
    let interner = malformed(
        interner,
        straight(vec![done(), done()], 1),
    );
    // No local for the return place, or none for an argument.
    let interner = malformed(interner, straight(vec![done()], 0));
    let mut body = straight(vec![done()], 1);
    body.nargs = 1;
    let interner = malformed(interner, body);
    // A statement on a local that is not there.
    let interner = malformed(
        interner,
        straight(vec![block(vec![assign(5, Rvalue::Use(number(1)))], TerminatorKind::Return)], 1),
    );
    // A call of a function without a signature.
    malformed(
        interner,
        straight(
            vec![block(
                vec![],
                TerminatorKind::Call { func: 9, substs: vec![], args: vec![], destination: None },
            )],
            1,
        ),
    );
}

#[test]
fn signature_must_fit_the_body() {
    let mut interner = Interner::new();
    let one_arg = FnSig { args: vec![any_i32(&mut interner)], ..plain_sig(&mut interner) };
    let mut body = straight(vec![block(vec![assign(0, Rvalue::Use(number(1)))], TerminatorKind::Return)], 3);
    let (interner, r) = check(&body, &one_arg, interner);
    assert!(matches!(r, Err(TyError::Malformed)));
    body.nargs = 1;
    let (mut interner, r) = check(&body, &one_arg, interner);
    assert!(r.is_ok());
    // A postcondition on a region that the signature does not require.
    let new_region = FnSig { ensures: vec![(4, any_i32(&mut interner))], ..plain_sig(&mut interner) };
    body.nargs = 0;
    let (_, r) = check(&body, &new_region, interner);
    assert!(matches!(r, Err(TyError::Malformed)));
}

#[test]
fn ownership_is_checked_along_every_path() {
    let mut interner = Interner::new();
    let sig = plain_sig(&mut interner);
    let body = straight(
        vec![
            block(vec![assign(1, Rvalue::Use(number(1)))], TerminatorKind::Drop { place: local(1), target: 1 }),
            block(vec![assign(0, Rvalue::Use(Operand::Copy(local(1))))], TerminatorKind::Return),
        ],
        2,
    );
    let (interner, r) = check(&body, &sig, interner);
    assert!(matches!(r, Err(TyError::Ownership(1))));
    // Dropping what holds nothing is no error.
    let body = straight(
        vec![
            block(vec![], TerminatorKind::Drop { place: local(1), target: 1 }),
            block(vec![assign(0, Rvalue::Use(number(1)))], TerminatorKind::Return),
        ],
        2,
    );
    let (_, r) = check(&body, &sig, interner);
    assert!(r.is_ok());
}

#[test]
fn template_holds_only_what_every_path_brings() {
    // if c { r = 1 } else { r = 2; t = 3 }; return r
    let mut interner = Interner::new();
    let sig = plain_sig(&mut interner);
    let body = Body {
        basic_blocks: vec![
            block(
                vec![assign(1, Rvalue::Use(Operand::Constant(IrConstant::Bool(true))))],
                TerminatorKind::SwitchInt { discr: Operand::Move(local(1)), branches: vec![(0, 1)], otherwise: 2 },
            ),
            block(vec![assign(0, Rvalue::Use(number(1)))], goto(3)),
            block(vec![assign(0, Rvalue::Use(number(2))), assign(2, Rvalue::Use(number(3)))], goto(3)),
            block(vec![], TerminatorKind::Return),
        ],
        nlocals: 3,
        nargs: 0,
        reverse_postorder: vec![0, 2, 1, 3],
        immediate_dominators: vec![0, 0, 0, 0],
    };
    let (interner, r) = check(&body, &sig, interner);
    let tree = r.unwrap();
    // The second path brings a value for the temporary, the first does
    // not: the template has a hole for the return place alone.
    assert_eq!(tree.num_holes(), 1);
    assert_eq!(
        tree.to_fixpoint(&interner),
        "(var $p0 ((int)))\n\
         (constraint (and (and \
         (forall ((_ int) (not true)) (and (($p0 1)))) \
         (forall ((_ int) (not (not true))) (and (($p0 2)))) \
         (forall ((a0 int) ($p0 a0)) (and ((true)))))))\n"
    );
}

/// fn count(n: i32{v: 0 <= v}) -> i32 { let mut i = 0; while i < n { i = i + 1 }; i }
fn counting_loop() -> Body {
    Body {
        basic_blocks: vec![
            block(vec![assign(2, Rvalue::Use(number(0)))], goto(1)),
            block(
                vec![assign(3, Rvalue::BinaryOp(IrBinOp::Lt, Operand::Copy(local(2)), Operand::Copy(local(1))))],
                TerminatorKind::SwitchInt { discr: Operand::Move(local(3)), branches: vec![(0, 3)], otherwise: 2 },
            ),
            block(
                vec![assign(2, Rvalue::BinaryOp(IrBinOp::Add, Operand::Copy(local(2)), number(1)))],
                goto(1),
            ),
            block(vec![assign(0, Rvalue::Use(Operand::Copy(local(2))))], TerminatorKind::Return),
        ],
        nlocals: 4,
        nargs: 1,
        reverse_postorder: vec![0, 1, 2, 3],
        immediate_dominators: vec![0, 0, 1, 1],
    }
}

fn loop_sig(interner: &mut Interner) -> FnSig {
    let v = interner.intern(ExprNode::Bound);
    let zero = lit(interner, 0);
    let non_negative = interner.intern(ExprNode::BinaryOp(BinOp::Le, zero, v));
    FnSig { args: vec![Ty::Refine(I32, non_negative)], ret: Ty::Refine(I32, non_negative), ..plain_sig(interner) }
}

#[test]
fn shape_of_a_loop_head() {
    let mut interner = Interner::new();
    let sig = loop_sig(&mut interner);
    let body = counting_loop();
    let genv = no_functions();
    let (_, shapes) = Checker::infer(&genv, &body, &sig, 0, interner);
    let shapes = shapes.unwrap();
    assert_eq!(shapes.len(), 1);
    let shape = &shapes[&1];
    for l in 0..4 {
        assert_eq!(shape.find_slot(Slot::Local(l)), Some(Slot::Local(l)));
    }
    assert_eq!(shape.find_slot(Slot::Local(4)), None);
    assert_eq!(shape.find_slot(Slot::Region(0)), None);
}

#[test]
fn loop_is_checked_once_against_the_template_of_its_head() {
    let mut interner = Interner::new();
    let sig = loop_sig(&mut interner);
    let body = counting_loop();
    let (interner, r) = check(&body, &sig, interner);
    let tree = r.unwrap();
    // The argument and the counter hold a number on every path into the
    // head: each gets a hole. The return place and the condition hold
    // nothing there.
    assert_eq!(tree.num_holes(), 2);
    assert_eq!(
        tree.to_fixpoint(&interner),
        "(var $p0 ((int)))\n(var $p1 ((int)))\n\
         (constraint (and (forall ((a0 int) (0 <= a0)) (and (and \
         (($p0 a0)) (($p1 0)) \
         (forall ((a1 int) ($p0 a1)) (and (forall ((a2 int) ($p1 a2)) (and \
         (forall ((_ int) (not (a2 < a1))) (and ((0 <= a2)))) \
         (forall ((_ int) (not (not (a2 < a1)))) (and (($p0 a1)) (($p1 (a2 + 1))))))))))))))\n"
    );
}

/// `fn<n: int>(l: i32@n; ref<l>) -> i32; l: i32{v: v == n + 1}`
fn inc_sig(interner: &mut Interner) -> FnSig {
    let v = interner.intern(ExprNode::Bound);
    let n = interner.intern(ExprNode::Free(7));
    let one = lit(interner, 1);
    let at_n = interner.intern(ExprNode::BinaryOp(BinOp::Eq, v, n));
    let succ = interner.intern(ExprNode::BinaryOp(BinOp::Add, n, one));
    let at_succ = interner.intern(ExprNode::BinaryOp(BinOp::Eq, v, succ));
    let always = truth(interner, true);
    FnSig {
        params: vec![Param { name: 7, sort: Sort::Int, pred: always }],
        requires: vec![(3, Ty::Refine(I32, at_n))],
        args: vec![Ty::MutRef(3)],
        ret: any_i32(interner),
        ensures: vec![(3, Ty::Refine(I32, at_succ))],
    }
}

#[test]
fn what_one_arm_does_to_a_region_does_not_reach_another_arm() {
    // let mut x = 5; let p = &mut x;
    // if c { inc(p); return 0 } else { return *p }
    let mut interner = Interner::new();
    let mut specs: FxHashMap<usize, FunSpec> = FxHashMap::default();
    specs.insert(1, FunSpec { fn_sig: inc_sig(&mut interner), trusted: true });
    let genv = GlobalEnv::new(specs);
    let v = interner.intern(ExprNode::Bound);
    let five = lit(&mut interner, 5);
    let is_five = interner.intern(ExprNode::BinaryOp(BinOp::Eq, v, five));
    let sig = FnSig { ret: Ty::Refine(I32, is_five), ..plain_sig(&mut interner) };
    let body = Body {
        basic_blocks: vec![
            block(
                vec![
                    assign(1, Rvalue::Use(number(5))),
                    assign(2, Rvalue::MutRef(local(1))),
                    assign(3, Rvalue::Use(Operand::Constant(IrConstant::Bool(true)))),
                ],
                // The arm that calls is explored first.
                TerminatorKind::SwitchInt { discr: Operand::Move(local(3)), branches: vec![(1, 1)], otherwise: 2 },
            ),
            block(
                vec![],
                TerminatorKind::Call {
                    func: 1,
                    substs: vec![],
                    args: vec![Operand::Copy(local(2))],
                    destination: Some((local(4), 3)),
                },
            ),
            block(
                vec![assign(0, Rvalue::Use(Operand::Copy(Place { local: 2, derefs: 1 })))],
                TerminatorKind::Return,
            ),
            block(
                vec![assign(0, Rvalue::Use(Operand::Copy(Place { local: 2, derefs: 1 })))],
                TerminatorKind::Return,
            ),
        ],
        nlocals: 5,
        nargs: 0,
        reverse_postorder: vec![0, 1, 3, 2],
        immediate_dominators: vec![0, 0, 0, 1],
    };
    let (interner, r) = Checker::check(&genv, &body, &sig, 0, interner);
    let tree = r.unwrap();
    // After the call the region holds `5 + 1`; in the other arm it holds
    // 5 as before.
    assert_eq!(
        tree.to_fixpoint(&interner),
        "(constraint (and \
         (forall ((_ int) (true)) (and ((true)) ((5 = 5)) \
         (forall ((a0 int) (true)) (and (((5 + 1) = 5)))))) \
         (forall ((_ int) (not true)) (and ((5 = 5))))))\n"
    );
    let guards = (0..tree.len()).filter(|i| matches!(tree.node(*i).kind, NodeKind::Guard(_))).count();
    assert_eq!(guards, 2);
}

#[test]
fn region_postcondition_of_the_function_is_owed_at_the_return() {
    // fn set(p: &mut i32) -> i32 { *p = 9; 0 }
    // with  l: i32; ref<l>  and the postcondition  l: i32{v: 0 < v}
    let mut interner = Interner::new();
    let v = interner.intern(ExprNode::Bound);
    let zero = lit(&mut interner, 0);
    let positive = interner.intern(ExprNode::BinaryOp(BinOp::Lt, zero, v));
    let sig = FnSig {
        params: vec![],
        requires: vec![(3, any_i32(&mut interner))],
        args: vec![Ty::MutRef(3)],
        ret: any_i32(&mut interner),
        ensures: vec![(3, Ty::Refine(I32, positive))],
    };
    let body = Body {
        basic_blocks: vec![block(
            vec![
                Statement::Assign(Place { local: 1, derefs: 1 }, Rvalue::Use(number(9))),
                assign(0, Rvalue::Use(number(0))),
            ],
            TerminatorKind::Return,
        )],
        nlocals: 2,
        nargs: 1,
        reverse_postorder: vec![0],
        immediate_dominators: vec![0],
    };
    let (interner, r) = check(&body, &sig, interner);
    // The region holds some number `a0` when the function is entered.
    assert_eq!(
        r.unwrap().to_fixpoint(&interner),
        "(constraint (and (forall ((a0 int) (true)) (and ((true)) ((0 < 9))))))\n"
    );
}

#[test]
fn branch_over_what_is_no_boolean_and_no_integer_is_malformed() {
    let mut interner = Interner::new();
    let sig = plain_sig(&mut interner);
    let body = straight(
        vec![
            block(
                vec![assign(1, Rvalue::Use(number(1))), assign(2, Rvalue::MutRef(local(1)))],
                TerminatorKind::SwitchInt { discr: Operand::Move(local(2)), branches: vec![(0, 1)], otherwise: 1 },
            ),
            block(vec![assign(0, Rvalue::Use(number(1)))], TerminatorKind::Return),
        ],
        3,
    );
    let (_, r) = check(&body, &sig, interner);
    assert!(matches!(r, Err(TyError::Malformed)));
}
