use liquid_rust::checker::Checker;
use liquid_rust::constraint::{ConstraintBuilder, NodeKind};
use liquid_rust::driver::{check_program, Checked};
use liquid_rust::emit::Emitter;
use liquid_rust::global_env::{FnSig, FunSpec, GlobalEnv, Param};
use liquid_rust::intern::Interner;
use liquid_rust::ir::{
    BasicBlockData, BinOp as IrBinOp, Body, Constant as IrConstant, Operand, Place, Rvalue, Statement,
    Terminator, TerminatorKind,
};
use liquid_rust::result::{Span, TyError};
use liquid_rust::ty::{BaseTy, BinOp, Constant, ExprId, ExprNode, IntTy, Sign, Sort, Ty, UnOp};
use rustc_hash::FxHashMap;

const I32: BaseTy = BaseTy::Int(IntTy::I32);

fn span() -> Span {
    Span { lo: 0, hi: 0 }
}

fn local(l: usize) -> Place {
    Place { local: l, derefs: 0 }
}

fn int_lit(n: i128) -> Operand {
    Operand::Constant(IrConstant::Int(n, IntTy::I32))
}

fn block(statements: Vec<Statement>, kind: TerminatorKind) -> BasicBlockData {
    BasicBlockData { statements, terminator: Some(Terminator { kind, source_info: span() }) }
}

fn lit(interner: &mut Interner, n: u128) -> ExprId {
    interner.intern(ExprNode::Constant(Constant::Int(Sign::Positive, n)))
}

fn truth(interner: &mut Interner, b: bool) -> ExprId {
    interner.intern(ExprNode::Constant(Constant::Bool(b)))
}

/// `i32{v: 0 <= v}`
fn non_negative(interner: &mut Interner) -> Ty {
    let zero = lit(interner, 0);
    let v = interner.intern(ExprNode::Bound);
    let pred = interner.intern(ExprNode::BinaryOp(BinOp::Le, zero, v));
    Ty::Refine(I32, pred)
}

/// `i32`
fn any_i32(interner: &mut Interner) -> Ty {
    Ty::Refine(I32, truth(interner, true))
}

/// `fn(i32{v: false}) -> i32`
fn helper_sig(interner: &mut Interner) -> FnSig {
    let never = truth(interner, false);
    FnSig {
        params: vec![],
        requires: vec![],
        args: vec![Ty::Refine(I32, never)],
        ret: any_i32(interner),
        ensures: vec![],
    }
}

/// `fn(i32{v: 0 <= v}) -> i32`
fn only_nat_sig(interner: &mut Interner) -> FnSig {
    FnSig { params: vec![], requires: vec![], args: vec![non_negative(interner)], ret: any_i32(interner), ensures: vec![] }
}

fn program(interner: &mut Interner) -> GlobalEnv {
    let mut specs: FxHashMap<usize, FunSpec> = FxHashMap::default();
    specs.insert(0, FunSpec { fn_sig: only_nat_sig(interner), trusted: false });
    specs.insert(1, FunSpec { fn_sig: helper_sig(interner), trusted: false });
    GlobalEnv::new(specs)
}

fn call_helper(destination: usize, next: usize) -> TerminatorKind {
    TerminatorKind::Call {
        func: 1,
        substs: vec![],
        args: vec![int_lit(0)],
        destination: Some((local(destination), next)),
    }
}

/// `fn only_nat(x) { helper(0) }`
fn unconditional_body() -> Body {
    Body {
        basic_blocks: vec![block(vec![], call_helper(0, 1)), block(vec![], TerminatorKind::Return)],
        nlocals: 2,
        nargs: 1,
        reverse_postorder: vec![0, 1],
        immediate_dominators: vec![0, 0],
    }
}

/// `fn only_nat(x) { if x OP 0 { helper(0) } else { 0 } }`
fn guarded_body(op: IrBinOp) -> Body {
    Body {
        basic_blocks: vec![
            block(
                vec![Statement::Assign(
                    local(2),
                    Rvalue::BinaryOp(op, Operand::Copy(local(1)), int_lit(0)),
                )],
                TerminatorKind::SwitchInt {
                    discr: Operand::Move(local(2)),
                    branches: vec![(0, 2)],
                    otherwise: 1,
                },
            ),
            block(vec![], call_helper(0, 3)),
            block(
                vec![Statement::Assign(local(0), Rvalue::Use(int_lit(0)))],
                TerminatorKind::Goto { target: 3 },
            ),
            block(vec![], TerminatorKind::Return),
        ],
        nlocals: 3,
        nargs: 1,
        reverse_postorder: vec![0, 1, 2, 3],
        immediate_dominators: vec![0, 0, 0, 0],
    }
}

#[derive(Clone, Copy, Debug, PartialEq)]
enum Val {
    Int(i128),
    Bool(bool),
}

fn as_bool(v: Val) -> bool {
    match v {
        Val::Bool(b) => b,
        Val::Int(n) => n != 0,
    }
}

fn as_int(v: Val) -> i128 {
    match v {
        Val::Int(n) => n,
        Val::Bool(b) => b as i128,
    }
}

/// The value of an expression where every name has the value `x`.
fn eval(interner: &Interner, e: ExprId, x: i128) -> Val {
    match interner.get(e) {
        ExprNode::Bound => Val::Int(x),
        ExprNode::Free(_) => Val::Int(x),
        ExprNode::Constant(Constant::Bool(b)) => Val::Bool(b),
        ExprNode::Constant(Constant::Int(Sign::Positive, n)) => Val::Int(n as i128),
        ExprNode::Constant(Constant::Int(Sign::Negative, n)) => Val::Int(-(n as i128)),
        ExprNode::Hole(_, _) => Val::Bool(true),
        ExprNode::UnaryOp(UnOp::Not, a) => Val::Bool(!as_bool(eval(interner, a, x))),
        ExprNode::UnaryOp(UnOp::Neg, a) => Val::Int(-as_int(eval(interner, a, x))),
        ExprNode::BinaryOp(op, a, b) => {
            let l = eval(interner, a, x);
            let r = eval(interner, b, x);
            match op {
                BinOp::Eq => Val::Bool(l == r),
                BinOp::Ne => Val::Bool(l != r),
                BinOp::Gt => Val::Bool(as_int(l) > as_int(r)),
                BinOp::Ge => Val::Bool(as_int(l) >= as_int(r)),
                BinOp::Lt => Val::Bool(as_int(l) < as_int(r)),
                BinOp::Le => Val::Bool(as_int(l) <= as_int(r)),
                BinOp::And => Val::Bool(as_bool(l) && as_bool(r)),
                BinOp::Or => Val::Bool(as_bool(l) || as_bool(r)),
                BinOp::Add => Val::Int(as_int(l) + as_int(r)),
                BinOp::Sub => Val::Int(as_int(l) - as_int(r)),
                BinOp::Mul => Val::Int(as_int(l) * as_int(r)),
                BinOp::Div => Val::Int(if as_int(r) == 0 { 0 } else { as_int(l) / as_int(r) }),
            }
        }
        ExprNode::Nil => Val::Bool(true),
        ExprNode::Cons(a, b) => Val::Bool(as_bool(eval(interner, a, x)) && as_bool(eval(interner, b, x))),
    }
}

/// The hypotheses in force at a node: those of the scopes around it.
fn hypotheses(tree: &ConstraintBuilder, mut i: usize) -> Vec<ExprId> {
    let mut out = vec![];
    while i != 0 {
        let node = tree.node(i);
        match node.kind {
            NodeKind::ForAll(_, _, p) | NodeKind::Guard(p) => out.push(p),
            _ => {}
        }
        i = node.parent;
    }
    out
}

/// The heads of a tree whose goal is the literal `false`.
fn impossible_heads(interner: &mut Interner, tree: &ConstraintBuilder) -> Vec<usize> {
    let never = truth(interner, false);
    (0..tree.len()).filter(|i| tree.node(*i).kind == NodeKind::Head(never)).collect()
}

/// Whether some value of the one variable in play meets every hypothesis
/// of a head and not its goal.
fn refuted(interner: &Interner, tree: &ConstraintBuilder, head: usize) -> bool {
    let goal = match tree.node(head).kind {
        NodeKind::Head(p) => p,
        _ => panic!("not a head"),
    };
    let hyps = hypotheses(tree, head);
    (-3..=3).any(|x| {
        hyps.iter().all(|h| as_bool(eval(interner, *h, x))) && !as_bool(eval(interner, goal, x))
    })
}

fn check(body: &Body) -> (Interner, ConstraintBuilder) {
    let mut interner = Interner::new();
    let genv = program(&mut interner);
    let (interner, r) = Checker::check(&genv, body, &genv.specs[&0].fn_sig, 0, interner);
    (interner, r.expect("the body is well formed"))
}

#[test]
fn unconditional_call_of_an_impossible_helper_cannot_be_proved() {
    let body = unconditional_body();
    let (mut interner, tree) = check(&body);
    let heads = impossible_heads(&mut interner, &tree);
    assert_eq!(heads.len(), 1);
    // The goal `false` stands under the hypothesis `0 <= x` alone, which
    // `x = 0` meets: no solver can prove it.
    let zero = lit(&mut interner, 0);
    let x = interner.intern(ExprNode::Free(0));
    let at_least_zero = interner.intern(ExprNode::BinaryOp(BinOp::Le, zero, x));
    assert_eq!(hypotheses(&tree, heads[0]), vec![at_least_zero]);
    assert!(refuted(&interner, &tree, heads[0]));
    let text = Emitter::new(&interner, &tree).to_fixpoint();
    // The call returns some number `a1`, which the function returns.
    assert_eq!(
        text,
        "(constraint (and (forall ((a0 int) (0 <= a0)) (and ((false)) (forall ((a1 int) (true)) (and ((true))))))))\n"
    );
}

#[test]
fn guarded_call_of_an_impossible_helper_is_still_an_obligation() {
    let body = guarded_body(IrBinOp::Lt);
    let (mut interner, tree) = check(&body);
    let heads = impossible_heads(&mut interner, &tree);
    // The call is behind a branch, and its precondition is handed to the
    // solver all the same: under the guard of the branch and the
    // hypothesis of the parameter.
    assert_eq!(heads.len(), 1);
    let zero = lit(&mut interner, 0);
    let x = interner.intern(ExprNode::Free(0));
    let at_least_zero = interner.intern(ExprNode::BinaryOp(BinOp::Le, zero, x));
    let lt = interner.intern(ExprNode::BinaryOp(BinOp::Lt, x, zero));
    let not_lt = interner.intern(ExprNode::UnaryOp(UnOp::Not, lt));
    let taken = interner.intern(ExprNode::UnaryOp(UnOp::Not, not_lt));
    assert_eq!(hypotheses(&tree, heads[0]), vec![taken, at_least_zero]);
}

#[test]
fn guarded_call_that_is_reachable_cannot_be_proved() {
    let body = guarded_body(IrBinOp::Le);
    let (mut interner, tree) = check(&body);
    let heads = impossible_heads(&mut interner, &tree);
    assert_eq!(heads.len(), 1);
    // `x = 0` meets `0 <= x` and takes the branch `x <= 0`.
    assert!(refuted(&interner, &tree, heads[0]));
}

#[test]
fn arms_of_a_branch_do_not_see_each_other() {
    let body = guarded_body(IrBinOp::Lt);
    let (mut interner, tree) = check(&body);
    let zero = lit(&mut interner, 0);
    let x = interner.intern(ExprNode::Free(0));
    let lt = interner.intern(ExprNode::BinaryOp(BinOp::Lt, x, zero));
    let not_lt = interner.intern(ExprNode::UnaryOp(UnOp::Not, lt));
    let taken = interner.intern(ExprNode::UnaryOp(UnOp::Not, not_lt));
    let guards: Vec<usize> =
        (0..tree.len()).filter(|i| matches!(tree.node(*i).kind, NodeKind::Guard(_))).collect();
    assert_eq!(guards.len(), 2);
    assert_eq!(tree.node(guards[0]).kind, NodeKind::Guard(not_lt));
    assert_eq!(tree.node(guards[1]).kind, NodeKind::Guard(taken));
    // Both guards hang under the scope of the branching block.
    assert_eq!(tree.node(guards[0]).parent, tree.node(guards[1]).parent);
    assert_eq!(tree.node(tree.node(guards[0]).parent).kind, NodeKind::Scope);
    // No node under one guard has the other guard among its hypotheses.
    for i in 0..tree.len() {
        let hyps = hypotheses(&tree, i);
        assert!(!(hyps.contains(&not_lt) && hyps.contains(&taken)));
    }
}

#[test]
fn join_point_gets_a_template_and_every_arm_is_proved_against_it() {
    let body = guarded_body(IrBinOp::Lt);
    let (interner, tree) = check(&body);
    // The return place and the argument hold a refinement on both paths:
    // each gets a hole.
    assert_eq!(tree.num_holes(), 2);
    let said_of = |e: ExprId, k: usize| matches!(interner.get(e), ExprNode::Hole(h, _) if h == k);
    for k in 0..2 {
        // Each arm proves the hole of the value that it brings, and the
        // join point takes the hole of its own value as hypothesis.
        let goals = (0..tree.len())
            .filter(|i| matches!(tree.node(*i).kind, NodeKind::Head(p) if said_of(p, k)))
            .count();
        assert_eq!(goals, 2);
        let assumed: Vec<NodeKind> = (0..tree.len())
            .map(|i| tree.node(i).kind)
            .filter(|kind| matches!(kind, NodeKind::ForAll(_, _, p) if said_of(*p, k)))
            .collect();
        assert_eq!(assumed.len(), 1);
        match assumed[0] {
            NodeKind::ForAll(x, Sort::Int, p) => {
                let value = interner.find(ExprNode::Free(x)).unwrap();
                assert_eq!(interner.get(p), ExprNode::Hole(k, value));
            }
            kind => panic!("{:?}", kind),
        }
    }
    let text = tree.to_fixpoint(&interner);
    assert!(text.contains("(($p0 0))"));
    assert!(text.contains("(($p1 a0))"));
}

#[test]
fn unrefined_arithmetic_has_trivial_goals_only() {
    // fn f(x: i32, y: i32) -> bool { let t = x + y; t < x * 2 }
    let mut interner = Interner::new();
    let sig = FnSig {
        params: vec![],
        requires: vec![],
        args: vec![any_i32(&mut interner), any_i32(&mut interner)],
        ret: Ty::Refine(BaseTy::Bool, truth(&mut interner, true)),
        ensures: vec![],
    };
    let body = Body {
        basic_blocks: vec![block(
            vec![
                Statement::Assign(
                    local(3),
                    Rvalue::BinaryOp(IrBinOp::Add, Operand::Copy(local(1)), Operand::Copy(local(2))),
                ),
                Statement::Assign(local(4), Rvalue::BinaryOp(IrBinOp::Mul, Operand::Copy(local(1)), int_lit(2))),
                Statement::Assign(
                    local(0),
                    Rvalue::BinaryOp(IrBinOp::Lt, Operand::Move(local(3)), Operand::Move(local(4))),
                ),
            ],
            TerminatorKind::Return,
        )],
        nlocals: 5,
        nargs: 2,
        reverse_postorder: vec![0],
        immediate_dominators: vec![0],
    };
    let genv = GlobalEnv::new(FxHashMap::default());
    let (mut interner, r) = Checker::check(&genv, &body, &sig, 0, interner);
    let tree = r.unwrap();
    let trivial = truth(&mut interner, true);
    let heads: Vec<NodeKind> =
        (0..tree.len()).map(|i| tree.node(i).kind).filter(|k| matches!(k, NodeKind::Head(_))).collect();
    assert_eq!(heads, vec![NodeKind::Head(trivial)]);
    // The arguments are some numbers `a0` and `a1`.
    assert_eq!(
        Emitter::new(&interner, &tree).to_fixpoint(),
        "(constraint (and (forall ((a0 int) (true)) (and (forall ((a1 int) (true)) (and ((true))))))))\n"
    );
}

#[test]
fn function_without_annotation_is_not_checked() {
    let mut interner = Interner::new();
    let mut specs: FxHashMap<usize, FunSpec> = FxHashMap::default();
    specs.insert(1, FunSpec { fn_sig: helper_sig(&mut interner), trusted: true });
    let genv = GlobalEnv::new(specs);
    let bodies = vec![(0, unconditional_body()), (1, unconditional_body())];
    let (_, checked) = check_program(&genv, &bodies, interner);
    assert_eq!(checked.len(), 2);
    assert!(matches!(checked[0], Checked::Unannotated));
    assert!(matches!(checked[1], Checked::Trusted));
}

#[test]
fn failure_in_one_function_does_not_stop_the_next() {
    let mut interner = Interner::new();
    let genv = program(&mut interner);
    // The first body reads a local that was never written.
    let broken = Body {
        basic_blocks: vec![block(
            vec![Statement::Assign(local(0), Rvalue::Use(Operand::Copy(local(2))))],
            TerminatorKind::Return,
        )],
        nlocals: 3,
        nargs: 1,
        reverse_postorder: vec![0],
        immediate_dominators: vec![0],
    };
    let bodies = vec![(0, broken), (0, unconditional_body())];
    let (_, checked) = check_program(&genv, &bodies, interner);
    assert!(matches!(checked[0], Checked::Failed(TyError::Ownership(2))));
    assert!(matches!(checked[1], Checked::Constraint(_)));
}

/// `fn<n: int>(l: i32@n; ref<l>) -> i32; l: i32{v: v == n + 1}`
fn inc_sig(interner: &mut Interner) -> FnSig {
    let v = interner.intern(ExprNode::Bound);
    let n = interner.intern(ExprNode::Free(7));
    let one = lit(interner, 1);
    let at_n = interner.intern(ExprNode::BinaryOp(BinOp::Eq, v, n));
    let succ = interner.intern(ExprNode::BinaryOp(BinOp::Add, n, one));
    let at_succ = interner.intern(ExprNode::BinaryOp(BinOp::Eq, v, succ));
    let always = truth(interner, true);
    FnSig {
        params: vec![Param { name: 7, sort: Sort::Int, pred: always }],
        requires: vec![(3, Ty::Refine(I32, at_n))],
        args: vec![Ty::MutRef(3)],
        ret: any_i32(interner),
        ensures: vec![(3, Ty::Refine(I32, at_succ))],
    }
}

#[test]
fn call_through_a_reference_updates_the_region() {
    // fn f() -> i32 { let mut x = 5; let p = &mut x; inc(p); *p }
    let mut interner = Interner::new();
    let mut specs: FxHashMap<usize, FunSpec> = FxHashMap::default();
    specs.insert(1, FunSpec { fn_sig: inc_sig(&mut interner), trusted: true });
    let genv = GlobalEnv::new(specs);
    let sig = FnSig {
        params: vec![],
        requires: vec![],
        args: vec![],
        ret: {
            let v = interner.intern(ExprNode::Bound);
            let six = lit(&mut interner, 6);
            Ty::Refine(I32, interner.intern(ExprNode::BinaryOp(BinOp::Eq, v, six)))
        },
        ensures: vec![],
    };
    let body = Body {
        basic_blocks: vec![
            block(
                vec![
                    Statement::Assign(local(1), Rvalue::Use(int_lit(5))),
                    Statement::Assign(local(2), Rvalue::MutRef(local(1))),
                ],
                TerminatorKind::Call {
                    func: 1,
                    substs: vec![],
                    args: vec![Operand::Copy(local(2))],
                    destination: Some((local(3), 1)),
                },
            ),
            block(
                vec![Statement::Assign(
                    local(0),
                    Rvalue::Use(Operand::Copy(Place { local: 2, derefs: 1 })),
                )],
                TerminatorKind::Return,
            ),
        ],
        nlocals: 4,
        nargs: 0,
        reverse_postorder: vec![0, 1],
        immediate_dominators: vec![0, 0],
    };
    let (interner, r) = Checker::check(&genv, &body, &sig, 0, interner);
    let tree = r.unwrap();
    // The caller proves that the region holds what the callee requires
    // (`5 = 5`, with `n` solved to 5), the region then holds `5 + 1`, and
    // the read after the call sees that value: the function returns
    // `5 + 1`, which must be 6. What the call itself returns is some
    // number `a0`.
    assert_eq!(
        Emitter::new(&interner, &tree).to_fixpoint(),
        "(constraint (and ((true)) ((5 = 5)) (forall ((a0 int) (true)) (and (((5 + 1) = 6))))))\n"
    );
}
