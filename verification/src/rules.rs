//! The typing rules of operands, right-hand sides and statements.

use vstd::prelude::*;
use crate::checker::Checker;
use crate::constraint::{
    exact,
    exact_spec,
    subtyping_spec,
    unpack_spec,
    value_of,
    value_of_spec,
    ConstraintBuilder,
    Cursor,
    NodeKind,
    TreeModel,
};
use crate::env::{law_moved_place_is_dead, lemma_env_below_later, lemma_set_slot_below, Env, EnvModel};
use crate::intern::{arena_extends, arena_wf, intern_spec, Interner};
use crate::ir;
use crate::ir::{Operand, Place, Rvalue, Statement};
use crate::result::{located, located_spec, Located, Span, TyError, TyResult};
use crate::ty::{BaseTy, BinOp, Constant, ExprId, ExprNode, Sign, Ty, UnOp};

verus! {

/// What a rule leaves behind: the arena, the constraint tree, the
/// environment, and what the rule found.
pub struct Outcome<T> {
    pub nodes: Seq<ExprNode>,
    pub tree: TreeModel,
    pub env: EnvModel,
    pub result: TyResult<T>,
}

/// What every rule starts from and keeps: a well-formed arena, tree and
/// environment, a cursor of the tree, and no expression that the arena
/// lacks.
pub open spec fn ready(nodes: Seq<ExprNode>, tree: TreeModel, env: EnvModel, c: Cursor) -> bool {
    &&& arena_wf(nodes)
    &&& tree.wf()
    &&& tree.holds(c)
    &&& tree.exprs_below(nodes.len())
    &&& env.wf()
    &&& env.exprs_below(nodes.len())
}

/// The literal of the constraint language that a literal of the program
/// stands for.
pub open spec fn literal_spec(c: ir::Constant) -> Constant {
    match c {
        ir::Constant::Int(n, _) => Constant::from_i128_spec(n),
        ir::Constant::Uint(n, _) => Constant::Int(crate::ty::Sign::Positive, n),
        ir::Constant::Bool(b) => Constant::Bool(b),
    }
}

/// The base type of a literal of the program.
pub open spec fn literal_base(c: ir::Constant) -> BaseTy {
    match c {
        ir::Constant::Int(_, ity) => BaseTy::Int(ity),
        ir::Constant::Uint(_, uty) => BaseTy::Uint(uty),
        ir::Constant::Bool(_) => BaseTy::Bool,
    }
}

/// A literal has its base type, refined to the literal itself.
pub open spec fn check_constant_spec(nodes: Seq<ExprNode>, c: ir::Constant) -> (Seq<ExprNode>, Ty) {
    let (n1, e) = intern_spec(nodes, ExprNode::Constant(literal_spec(c)));
    exact_spec(n1, literal_base(c), e)
}

/// An operand that copies reads its place; one that moves reads it and
/// leaves it without a live value; a literal has its own type.
pub open spec fn check_operand_spec(nodes: Seq<ExprNode>, env: EnvModel, operand: Operand) -> (
    Seq<ExprNode>,
    EnvModel,
    TyResult<Ty>,
) {
    match operand {
        Operand::Copy(p) => (nodes, env, env.lookup_place(p)),
        Operand::Move(p) => (nodes, env.move_place(p).0, env.move_place(p).1),
        Operand::Constant(c) => (check_constant_spec(nodes, c).0, env, Ok(check_constant_spec(nodes, c).1)),
    }
}

/// Negation of a boolean is a boolean; the negative of a signed integer is
/// a signed integer of the same type. The operand must be of a type that
/// pins its value down: the result is pinned to the operator applied to
/// that value.
pub open spec fn unary_spec(nodes: Seq<ExprNode>, un_op: ir::UnOp, ty: Ty) -> (Seq<ExprNode>, TyResult<Ty>) {
    match (un_op, value_of_spec(nodes, ty)) {
        (ir::UnOp::Not, Some((BaseTy::Bool, e))) => {
            let (n1, r) = intern_spec(nodes, ExprNode::UnaryOp(UnOp::Not, e));
            (exact_spec(n1, BaseTy::Bool, r).0, Ok(exact_spec(n1, BaseTy::Bool, r).1))
        },
        (ir::UnOp::Neg, Some((BaseTy::Int(ity), e))) => {
            let (n1, r) = intern_spec(nodes, ExprNode::UnaryOp(UnOp::Neg, e));
            (exact_spec(n1, BaseTy::Int(ity), r).0, Ok(exact_spec(n1, BaseTy::Int(ity), r).1))
        },
        _ => (nodes, Err(TyError::Operand(ty))),
    }
}

pub open spec fn check_unary_op_spec(nodes: Seq<ExprNode>, env: EnvModel, un_op: ir::UnOp, operand: Operand) -> (
    Seq<ExprNode>,
    EnvModel,
    TyResult<Ty>,
) {
    let (n1, env1, r) = check_operand_spec(nodes, env, operand);
    match r {
        Ok(ty) => (unary_spec(n1, un_op, ty).0, env1, unary_spec(n1, un_op, ty).1),
        Err(e) => (n1, env1, Err(e)),
    }
}

/// The operator of the constraint language for an operator of the program.
pub open spec fn lower_bin_op(op: ir::BinOp) -> BinOp {
    match op {
        ir::BinOp::Eq => BinOp::Eq,
        ir::BinOp::Ne => BinOp::Ne,
        ir::BinOp::Add => BinOp::Add,
        ir::BinOp::Sub => BinOp::Sub,
        ir::BinOp::Mul => BinOp::Mul,
        ir::BinOp::Div => BinOp::Div,
        ir::BinOp::Gt => BinOp::Gt,
        ir::BinOp::Lt => BinOp::Lt,
        ir::BinOp::Le => BinOp::Le,
    }
}

/// The values of two operands of one base type: the base type and what
/// each operand is pinned to. Types of different shape are a mismatch; a
/// type that pins no value down is no operand.
pub open spec fn operands_spec(nodes: Seq<ExprNode>, ty1: Ty, ty2: Ty) -> TyResult<(BaseTy, ExprId, ExprId)> {
    match (ty1, ty2) {
        (Ty::Refine(b1, _), Ty::Refine(b2, _)) => if b1 == b2 {
            match (value_of_spec(nodes, ty1), value_of_spec(nodes, ty2)) {
                (Some((_, e1)), Some((_, e2))) => Ok((b1, e1, e2)),
                (None, _) => Err(TyError::Operand(ty1)),
                _ => Err(TyError::Operand(ty2)),
            }
        } else {
            Err(TyError::ShapeMismatch { expected: ty1, found: ty2 })
        },
        _ => Err(TyError::ShapeMismatch { expected: ty1, found: ty2 }),
    }
}

/// The values of two operands of one numeric base type.
pub open spec fn numeric_operands_spec(nodes: Seq<ExprNode>, ty1: Ty, ty2: Ty) -> TyResult<
    (BaseTy, ExprId, ExprId),
> {
    match operands_spec(nodes, ty1, ty2) {
        Ok((b, e1, e2)) => if b.is_numeric() {
            Ok((b, e1, e2))
        } else {
            Err(TyError::ShapeMismatch { expected: ty1, found: ty2 })
        },
        Err(e) => Err(e),
    }
}

/// Arithmetic on two operands of one numeric type keeps the type. A
/// division adds the goal that the divisor is not zero.
pub open spec fn check_arith_op_spec(
    nodes: Seq<ExprNode>,
    tree: TreeModel,
    c: Cursor,
    op: BinOp,
    ty1: Ty,
    ty2: Ty,
) -> (Seq<ExprNode>, TreeModel, TyResult<Ty>) {
    match numeric_operands_spec(nodes, ty1, ty2) {
        Ok((bty, e1, e2)) => {
            let (n2, t2) = if op == BinOp::Div {
                let (n0, zero) = intern_spec(nodes, ExprNode::Constant(Constant::zero()));
                let (n1, goal) = intern_spec(n0, ExprNode::BinaryOp(BinOp::Ne, e2, zero));
                (n1, tree.push(c, NodeKind::Head(goal)))
            } else {
                (nodes, tree)
            };
            let (n3, e) = intern_spec(n2, ExprNode::BinaryOp(op, e1, e2));
            (exact_spec(n3, bty, e).0, t2, Ok(exact_spec(n3, bty, e).1))
        },
        Err(e) => (nodes, tree, Err(e)),
    }
}

/// A comparison of two operands of one numeric type is a boolean.
pub open spec fn check_cmp_op_spec(nodes: Seq<ExprNode>, op: BinOp, ty1: Ty, ty2: Ty) -> (
    Seq<ExprNode>,
    TyResult<Ty>,
) {
    match numeric_operands_spec(nodes, ty1, ty2) {
        Ok((_, e1, e2)) => {
            let (n1, e) = intern_spec(nodes, ExprNode::BinaryOp(op, e1, e2));
            (exact_spec(n1, BaseTy::Bool, e).0, Ok(exact_spec(n1, BaseTy::Bool, e).1))
        },
        Err(e) => (nodes, Err(e)),
    }
}

/// A test for equality of two operands of one base type is a boolean.
pub open spec fn check_eq_spec(nodes: Seq<ExprNode>, op: BinOp, ty1: Ty, ty2: Ty) -> (
    Seq<ExprNode>,
    TyResult<Ty>,
) {
    match operands_spec(nodes, ty1, ty2) {
        Ok((_, e1, e2)) => {
            let (n1, e) = intern_spec(nodes, ExprNode::BinaryOp(op, e1, e2));
            (exact_spec(n1, BaseTy::Bool, e).0, Ok(exact_spec(n1, BaseTy::Bool, e).1))
        },
        Err(e) => (nodes, Err(e)),
    }
}

/// The rule of a binary operator on two types.
pub open spec fn binary_spec(
    nodes: Seq<ExprNode>,
    tree: TreeModel,
    c: Cursor,
    op: ir::BinOp,
    ty1: Ty,
    ty2: Ty,
) -> (Seq<ExprNode>, TreeModel, TyResult<Ty>) {
    match op {
        ir::BinOp::Eq | ir::BinOp::Ne => (
            check_eq_spec(nodes, lower_bin_op(op), ty1, ty2).0,
            tree,
            check_eq_spec(nodes, lower_bin_op(op), ty1, ty2).1,
        ),
        ir::BinOp::Gt | ir::BinOp::Lt | ir::BinOp::Le => (
            check_cmp_op_spec(nodes, lower_bin_op(op), ty1, ty2).0,
            tree,
            check_cmp_op_spec(nodes, lower_bin_op(op), ty1, ty2).1,
        ),
        _ => check_arith_op_spec(nodes, tree, c, lower_bin_op(op), ty1, ty2),
    }
}

/// The operands are typed from left to right, then the operator's rule
/// applies.
pub open spec fn check_binary_op_spec(
    nodes: Seq<ExprNode>,
    tree: TreeModel,
    c: Cursor,
    env: EnvModel,
    op: ir::BinOp,
    op1: Operand,
    op2: Operand,
) -> Outcome<Ty> {
    let (n1, env1, r1) = check_operand_spec(nodes, env, op1);
    match r1 {
        Ok(ty1) => {
            let (n2, env2, r2) = check_operand_spec(n1, env1, op2);
            match r2 {
                Ok(ty2) => {
                    let (n3, t3, r) = binary_spec(n2, tree, c, op, ty1, ty2);
                    Outcome { nodes: n3, tree: t3, env: env2, result: r }
                },
                Err(e) => Outcome { nodes: n2, tree, env: env2, result: Err(e) },
            }
        },
        Err(e) => Outcome { nodes: n1, tree, env: env1, result: Err(e) },
    }
}

/// The type of a right-hand side. Taking a mutable reference makes a
/// region; nothing else touches regions.
pub open spec fn check_rvalue_spec(
    nodes: Seq<ExprNode>,
    tree: TreeModel,
    c: Cursor,
    env: EnvModel,
    rvalue: Rvalue,
) -> Outcome<Ty> {
    match rvalue {
        Rvalue::Use(operand) => Outcome {
            nodes: check_operand_spec(nodes, env, operand).0,
            tree,
            env: check_operand_spec(nodes, env, operand).1,
            result: check_operand_spec(nodes, env, operand).2,
        },
        Rvalue::UnaryOp(un_op, operand) => Outcome {
            nodes: check_unary_op_spec(nodes, env, un_op, operand).0,
            tree,
            env: check_unary_op_spec(nodes, env, un_op, operand).1,
            result: check_unary_op_spec(nodes, env, un_op, operand).2,
        },
        Rvalue::BinaryOp(op, op1, op2) => check_binary_op_spec(nodes, tree, c, env, op, op1, op2),
        Rvalue::MutRef(p) => Outcome {
            nodes,
            tree,
            env: env.get_region(p).0,
            result: match env.get_region(p).1 {
                Ok(r) => Ok(Ty::MutRef(r)),
                Err(e) => Err(e),
            },
        },
    }
}

/// An assignment types its right-hand side and strongly updates its
/// place.
pub open spec fn check_statement_spec(
    nodes: Seq<ExprNode>,
    tree: TreeModel,
    c: Cursor,
    env: EnvModel,
    stmt: Statement,
) -> Outcome<()> {
    match stmt {
        Statement::Assign(p, rvalue) => {
            let o = check_rvalue_spec(nodes, tree, c, env, rvalue);
            match o.result {
                Ok(ty) => Outcome {
                    nodes: o.nodes,
                    tree: o.tree,
                    env: o.env.write_place(p, ty).0,
                    result: o.env.write_place(p, ty).1,
                },
                Err(e) => Outcome { nodes: o.nodes, tree: o.tree, env: o.env, result: Err(e) },
            }
        },
        Statement::Nop => Outcome { nodes, tree, env, result: Ok(()) },
    }
}

/// The statements from `i` on, in order, up to the first that fails.
pub open spec fn check_statements_spec(
    nodes: Seq<ExprNode>,
    tree: TreeModel,
    c: Cursor,
    env: EnvModel,
    stmts: Seq<Statement>,
    i: int,
) -> Outcome<()>
    decreases stmts.len() - i,
{
    if i < 0 || i >= stmts.len() {
        Outcome { nodes, tree, env, result: Ok(()) }
    } else {
        let o = check_statement_spec(nodes, tree, c, env, stmts[i]);
        match o.result {
            Ok(_) => check_statements_spec(o.nodes, o.tree, c, o.env, stmts, i + 1),
            Err(e) => o,
        }
    }
}

/// A tree whose expressions are in an arena has them in every later
/// arena, and keeps them when a node with such an expression is added.
pub proof fn lemma_tree_below_later(tree: TreeModel, n: nat, m: nat)
    requires
        tree.exprs_below(n),
        n <= m,
    ensures
        tree.exprs_below(m),
        forall|c: Cursor, kind: NodeKind| kind.expr_below(m) ==> (#[trigger] tree.push(c, kind)).exprs_below(m),
{
    assert forall|i: int| 0 <= i < tree.nodes.len() implies (#[trigger] tree.nodes[i]).kind.expr_below(m) by {
        assert(tree.nodes[i].kind.expr_below(n));
    }
    assert forall|c: Cursor, kind: NodeKind| kind.expr_below(m) implies (#[trigger] tree.push(
        c,
        kind,
    )).exprs_below(m) by {
        let t1 = tree.push(c, kind);
        assert forall|i: int| 0 <= i < t1.nodes.len() implies (#[trigger] t1.nodes[i]).kind.expr_below(m) by {
            if i < tree.nodes.len() {
                assert(t1.nodes[i] == tree.nodes[i]);
            }
        }
    }
}

/// An operand that was moved is dead. After a move that gave a type,
/// copying the place and moving it again both give an ownership violation
/// of the local of the place and no type, and change nothing, whatever the
/// place and the environment.
pub proof fn law_moved_operand_is_dead(nodes: Seq<ExprNode>, env: EnvModel, p: Place)
    requires
        env.wf(),
        check_operand_spec(nodes, env, Operand::Move(p)).2 is Ok,
    ensures
        ({
            let (n1, env1, _) = check_operand_spec(nodes, env, Operand::Move(p));
            let dead = Err::<Ty, TyError>(TyError::Ownership(p.local));
            &&& check_operand_spec(n1, env1, Operand::Copy(p)) == (n1, env1, dead)
            &&& check_operand_spec(n1, env1, Operand::Move(p)) == (n1, env1, dead)
        }),
{
    law_moved_place_is_dead(env, p);
}

impl<'a> Checker<'a> {
    pub fn check_constant(interner: &mut Interner, c: &ir::Constant) -> (ty: Ty)
        requires
            old(interner).wf(),
        ensures
            (final(interner)@, ty) == check_constant_spec(old(interner)@, *c),
            final(interner).wf(),
            arena_extends(final(interner)@, old(interner)@),
            ty.expr_below(final(interner)@.len()),
            value_of_spec(final(interner)@, ty) is Some,
            (value_of_spec(final(interner)@, ty)->0).0 == literal_base(*c),
    {
        match c {
            ir::Constant::Int(n, int_ty) => {
                let e = interner.intern(ExprNode::Constant(Constant::from_i128(*n)));
                exact(interner, BaseTy::Int(*int_ty), e)
            },
            ir::Constant::Uint(n, uint_ty) => {
                let e = interner.intern(ExprNode::Constant(Constant::from_u128(*n)));
                exact(interner, BaseTy::Uint(*uint_ty), e)
            },
            ir::Constant::Bool(b) => {
                let e = interner.intern(ExprNode::Constant(Constant::from_bool(*b)));
                exact(interner, BaseTy::Bool, e)
            },
        }
    }

    pub fn check_operand(interner: &mut Interner, env: &mut Env, operand: &Operand) -> (r: TyResult<Ty>)
        requires
            old(interner).wf(),
            old(env).wf(),
            old(env)@.exprs_below(old(interner)@.len()),
        ensures
            (final(interner)@, final(env)@, r) == check_operand_spec(old(interner)@, old(env)@, *operand),
            final(interner).wf(),
            arena_extends(final(interner)@, old(interner)@),
            final(env).wf(),
            final(env)@.exprs_below(final(interner)@.len()),
            r is Ok ==> r->Ok_0.expr_below(final(interner)@.len()),
            *operand is Constant ==> value_of_spec(final(interner)@, r->Ok_0) is Some && (value_of_spec(
                final(interner)@,
                r->Ok_0,
            )->0).0 == literal_base(operand->Constant_0),
    {
        match operand {
            Operand::Copy(p) => {
                let r = env.lookup_place(*p);
                proof {
                    lemma_lookup_below(env@, *p, interner@.len());
                }
                r
            },
            Operand::Move(p) => {
                let r = env.move_place(*p);
                proof {
                    lemma_lookup_below(old(env)@, *p, interner@.len());
                    if r is Ok {
                        lemma_set_slot_below(
                            old(env)@,
                            old(env)@.resolve(*p)->Ok_0,
                            Ty::Uninit,
                            interner@.len(),
                        );
                    }
                }
                r
            },
            Operand::Constant(c) => {
                let ty = Self::check_constant(interner, c);
                proof {
                    lemma_env_below_later(env@, old(interner)@.len(), interner@.len());
                }
                Ok(ty)
            },
        }
    }
}

impl<'a> Checker<'a> {
    pub fn check_unary_op(interner: &mut Interner, env: &mut Env, un_op: ir::UnOp, operand: &Operand) -> (r:
        TyResult<Ty>)
        requires
            old(interner).wf(),
            old(env).wf(),
            old(env)@.exprs_below(old(interner)@.len()),
        ensures
            (final(interner)@, final(env)@, r) == check_unary_op_spec(
                old(interner)@,
                old(env)@,
                un_op,
                *operand,
            ),
            final(interner).wf(),
            arena_extends(final(interner)@, old(interner)@),
            final(env).wf(),
            final(env)@.exprs_below(final(interner)@.len()),
            r is Ok ==> r->Ok_0.expr_below(final(interner)@.len()),
    {
        let ty = Self::check_operand(interner, env, operand)?;
        let ghost mid = interner@;
        let r = match (un_op, value_of(interner, ty)) {
            (ir::UnOp::Not, Some((BaseTy::Bool, e))) => {
                let r = interner.intern(ExprNode::UnaryOp(UnOp::Not, e));
                Ok(exact(interner, BaseTy::Bool, r))
            },
            (ir::UnOp::Neg, Some((BaseTy::Int(int_ty), e))) => {
                let r = interner.intern(ExprNode::UnaryOp(UnOp::Neg, e));
                Ok(exact(interner, BaseTy::Int(int_ty), r))
            },
            _ => Err(TyError::Operand(ty)),
        };
        proof {
            lemma_env_below_later(env@, mid.len(), interner@.len());
        }
        r
    }

    /// The values of two operands of one base type.
    pub fn operands(interner: &Interner, ty1: Ty, ty2: Ty) -> (r: TyResult<(BaseTy, ExprId, ExprId)>)
        requires
            interner.wf(),
        ensures
            r == operands_spec(interner@, ty1, ty2),
            r is Ok ==> (r->Ok_0).1 < interner@.len() && (r->Ok_0).2 < interner@.len(),
    {
        match (ty1, ty2) {
            (Ty::Refine(bty1, _), Ty::Refine(bty2, _)) => {
                if bty1 == bty2 {
                    match (value_of(interner, ty1), value_of(interner, ty2)) {
                        (Some((_, e1)), Some((_, e2))) => Ok((bty1, e1, e2)),
                        (None, _) => Err(TyError::Operand(ty1)),
                        _ => Err(TyError::Operand(ty2)),
                    }
                } else {
                    Err(TyError::ShapeMismatch { expected: ty1, found: ty2 })
                }
            },
            _ => Err(TyError::ShapeMismatch { expected: ty1, found: ty2 }),
        }
    }

    /// The values of two operands of one numeric base type.
    pub fn numeric_operands(interner: &Interner, ty1: Ty, ty2: Ty) -> (r: TyResult<(BaseTy, ExprId, ExprId)>)
        requires
            interner.wf(),
        ensures
            r == numeric_operands_spec(interner@, ty1, ty2),
            r is Ok ==> (r->Ok_0).1 < interner@.len() && (r->Ok_0).2 < interner@.len(),
    {
        let (bty, e1, e2) = Self::operands(interner, ty1, ty2)?;
        match bty {
            BaseTy::Int(_) | BaseTy::Uint(_) => Ok((bty, e1, e2)),
            _ => Err(TyError::ShapeMismatch { expected: ty1, found: ty2 }),
        }
    }

    pub fn check_eq(interner: &mut Interner, op: BinOp, ty1: Ty, ty2: Ty) -> (r: TyResult<Ty>)
        requires
            old(interner).wf(),
        ensures
            (final(interner)@, r) == check_eq_spec(old(interner)@, op, ty1, ty2),
            final(interner).wf(),
            arena_extends(final(interner)@, old(interner)@),
            r is Ok ==> r->Ok_0.expr_below(final(interner)@.len()),
    {
        let (_, e1, e2) = Self::operands(interner, ty1, ty2)?;
        let e = interner.intern(ExprNode::BinaryOp(op, e1, e2));
        Ok(exact(interner, BaseTy::Bool, e))
    }

    pub fn check_cmp_op(interner: &mut Interner, op: BinOp, ty1: Ty, ty2: Ty) -> (r: TyResult<Ty>)
        requires
            old(interner).wf(),
        ensures
            (final(interner)@, r) == check_cmp_op_spec(old(interner)@, op, ty1, ty2),
            final(interner).wf(),
            arena_extends(final(interner)@, old(interner)@),
            r is Ok ==> r->Ok_0.expr_below(final(interner)@.len()),
    {
        let (_, e1, e2) = Self::numeric_operands(interner, ty1, ty2)?;
        let e = interner.intern(ExprNode::BinaryOp(op, e1, e2));
        Ok(exact(interner, BaseTy::Bool, e))
    }

    pub fn check_arith_op(
        interner: &mut Interner,
        builder: &mut ConstraintBuilder,
        cursor: &Cursor,
        op: BinOp,
        ty1: Ty,
        ty2: Ty,
    ) -> (r: TyResult<Ty>)
        requires
            old(interner).wf(),
            old(builder).wf(),
            old(builder)@.holds(*cursor),
            old(builder)@.exprs_below(old(interner)@.len()),
        ensures
            (final(interner)@, final(builder)@, r) == check_arith_op_spec(
                old(interner)@,
                old(builder)@,
                *cursor,
                op,
                ty1,
                ty2,
            ),
            final(interner).wf(),
            arena_extends(final(interner)@, old(interner)@),
            final(builder).wf(),
            final(builder)@.holds(*cursor),
            final(builder)@.exprs_below(final(interner)@.len()),
            final(builder)@.extends(old(builder)@),
            r is Ok ==> r->Ok_0.expr_below(final(interner)@.len()),
    {
        let (bty, e1, e2) = Self::numeric_operands(interner, ty1, ty2)?;
        if op == BinOp::Div {
            let zero = interner.intern(ExprNode::Constant(Constant::Int(Sign::Positive, 0)));
            let goal = interner.intern(ExprNode::BinaryOp(BinOp::Ne, e2, zero));
            proof {
                lemma_tree_below_later(builder@, old(interner)@.len(), interner@.len());
            }
            cursor.push_head(builder, goal);
        }
        let ghost mid = interner@;
        let e = interner.intern(ExprNode::BinaryOp(op, e1, e2));
        let ty = exact(interner, bty, e);
        proof {
            lemma_tree_below_later(builder@, mid.len(), interner@.len());
        }
        Ok(ty)
    }

    pub fn lower_bin_op(op: ir::BinOp) -> (r: BinOp)
        ensures
            r == lower_bin_op(op),
    {
        match op {
            ir::BinOp::Eq => BinOp::Eq,
            ir::BinOp::Ne => BinOp::Ne,
            ir::BinOp::Add => BinOp::Add,
            ir::BinOp::Sub => BinOp::Sub,
            ir::BinOp::Mul => BinOp::Mul,
            ir::BinOp::Div => BinOp::Div,
            ir::BinOp::Gt => BinOp::Gt,
            ir::BinOp::Lt => BinOp::Lt,
            ir::BinOp::Le => BinOp::Le,
        }
    }

    pub fn check_binary_op(
        interner: &mut Interner,
        builder: &mut ConstraintBuilder,
        cursor: &Cursor,
        env: &mut Env,
        bin_op: ir::BinOp,
        op1: &Operand,
        op2: &Operand,
    ) -> (r: TyResult<Ty>)
        requires
            ready(old(interner)@, old(builder)@, old(env)@, *cursor),
        ensures
            (Outcome { nodes: final(interner)@, tree: final(builder)@, env: final(env)@, result: r })
                == check_binary_op_spec(
                old(interner)@,
                old(builder)@,
                *cursor,
                old(env)@,
                bin_op,
                *op1,
                *op2,
            ),
            ready(final(interner)@, final(builder)@, final(env)@, *cursor),
            arena_extends(final(interner)@, old(interner)@),
            final(builder)@.extends(old(builder)@),
            r is Ok ==> r->Ok_0.expr_below(final(interner)@.len()),
    {
        let ty1 = Self::check_operand(interner, env, op1)?;
        let ty2 = Self::check_operand(interner, env, op2)?;
        proof {
            lemma_tree_below_later(builder@, old(interner)@.len(), interner@.len());
        }
        let ghost mid = interner@;
        let ghost tree_mid = builder@;
        let r = match bin_op {
            ir::BinOp::Eq | ir::BinOp::Ne => Self::check_eq(interner, Self::lower_bin_op(bin_op), ty1, ty2),
            ir::BinOp::Gt | ir::BinOp::Lt | ir::BinOp::Le => Self::check_cmp_op(
                interner,
                Self::lower_bin_op(bin_op),
                ty1,
                ty2,
            ),
            _ => Self::check_arith_op(interner, builder, cursor, Self::lower_bin_op(bin_op), ty1, ty2),
        };
        proof {
            lemma_tree_below_later(tree_mid, mid.len(), interner@.len());
            lemma_env_below_later(env@, mid.len(), interner@.len());
        }
        r
    }

    pub fn check_rvalue(
        interner: &mut Interner,
        builder: &mut ConstraintBuilder,
        cursor: &Cursor,
        env: &mut Env,
        rvalue: &Rvalue,
    ) -> (r: TyResult<Ty>)
        requires
            ready(old(interner)@, old(builder)@, old(env)@, *cursor),
        ensures
            (Outcome { nodes: final(interner)@, tree: final(builder)@, env: final(env)@, result: r })
                == check_rvalue_spec(old(interner)@, old(builder)@, *cursor, old(env)@, *rvalue),
            ready(final(interner)@, final(builder)@, final(env)@, *cursor),
            arena_extends(final(interner)@, old(interner)@),
            final(builder)@.extends(old(builder)@),
            r is Ok ==> r->Ok_0.expr_below(final(interner)@.len()),
    {
        match rvalue {
            Rvalue::Use(operand) => {
                let r = Self::check_operand(interner, env, operand);
                proof {
                    lemma_tree_below_later(builder@, old(interner)@.len(), interner@.len());
                }
                r
            },
            Rvalue::BinaryOp(bin_op, op1, op2) => Self::check_binary_op(
                interner,
                builder,
                cursor,
                env,
                *bin_op,
                op1,
                op2,
            ),
            Rvalue::MutRef(place) => {
                let r = env.get_region(*place);
                proof {
                    lemma_lookup_below(old(env)@, *place, interner@.len());
                }
                match r {
                    Ok(region) => Ok(Ty::MutRef(region)),
                    Err(e) => Err(e),
                }
            },
            Rvalue::UnaryOp(un_op, operand) => {
                let r = Self::check_unary_op(interner, env, *un_op, operand);
                proof {
                    lemma_tree_below_later(builder@, old(interner)@.len(), interner@.len());
                }
                r
            },
        }
    }

    pub fn check_statement(
        interner: &mut Interner,
        builder: &mut ConstraintBuilder,
        cursor: &Cursor,
        env: &mut Env,
        stmt: &Statement,
    ) -> (r: TyResult<()>)
        requires
            ready(old(interner)@, old(builder)@, old(env)@, *cursor),
        ensures
            (Outcome { nodes: final(interner)@, tree: final(builder)@, env: final(env)@, result: r })
                == check_statement_spec(old(interner)@, old(builder)@, *cursor, old(env)@, *stmt),
            ready(final(interner)@, final(builder)@, final(env)@, *cursor),
            arena_extends(final(interner)@, old(interner)@),
            final(builder)@.extends(old(builder)@),
    {
        match stmt {
            Statement::Assign(p, rvalue) => {
                let ty = Self::check_rvalue(interner, builder, cursor, env, rvalue)?;
                let ghost mid = env@;
                let r = env.write_place(*p, ty);
                proof {
                    lemma_lookup_below(mid, *p, interner@.len());
                    if r is Ok {
                        lemma_set_slot_below(mid, mid.resolve(*p)->Ok_0, ty, interner@.len());
                    }
                }
                r
            },
            Statement::Nop => Ok(()),
        }
    }
}

impl<'a> Checker<'a> {
    /// Checks the statements of a block in order.
    pub fn check_statements(
        interner: &mut Interner,
        builder: &mut ConstraintBuilder,
        cursor: &Cursor,
        env: &mut Env,
        stmts: &Vec<Statement>,
    ) -> (r: TyResult<()>)
        requires
            ready(old(interner)@, old(builder)@, old(env)@, *cursor),
        ensures
            (Outcome { nodes: final(interner)@, tree: final(builder)@, env: final(env)@, result: r })
                == check_statements_spec(old(interner)@, old(builder)@, *cursor, old(env)@, stmts@, 0),
            ready(final(interner)@, final(builder)@, final(env)@, *cursor),
            arena_extends(final(interner)@, old(interner)@),
            final(builder)@.extends(old(builder)@),
    {
        let mut i: usize = 0;
        while i < stmts.len()
            invariant
                i <= stmts.len(),
                ready(interner@, builder@, env@, *cursor),
                arena_extends(interner@, old(interner)@),
                builder@.extends(old(builder)@),
                check_statements_spec(interner@, builder@, *cursor, env@, stmts@, i as int)
                    == check_statements_spec(old(interner)@, old(builder)@, *cursor, old(env)@, stmts@, 0),
            decreases stmts.len() - i,
        {
            match Self::check_statement(interner, builder, cursor, env, &stmts[i]) {
                Ok(_) => {},
                Err(e) => {
                    return Err(e);
                },
            }
            i = i + 1;
        }
        Ok(())
    }
}

/// What is read from an environment is in the arena if the environment is,
/// and the place that was read names a slot of the environment.
pub proof fn lemma_lookup_below(env: EnvModel, p: ir::Place, n: nat)
    requires
        env.wf(),
        env.exprs_below(n),
    ensures
        env.lookup_place(p) is Ok ==> env.lookup_place(p)->Ok_0.expr_below(n),
        env.resolve(p) is Ok ==> env.has_slot(env.resolve(p)->Ok_0),
{
    if env.resolve(p) is Ok {
        lemma_walk_has_slot(env, crate::env::Slot::Local(p.local), p.derefs as nat, p.local);
    }
}

proof fn lemma_walk_has_slot(e: EnvModel, s0: crate::env::Slot, k: nat, local: ir::Local)
    requires
        e.walk(s0, k, local) is Ok,
        e.has_slot(s0),
    ensures
        e.has_slot(e.walk(s0, k, local)->Ok_0),
    decreases k,
{
    if k > 0 {
        match e.slot_ty(s0) {
            Ty::MutRef(r) => {
                lemma_walk_has_slot(e, crate::env::Slot::Region(r), (k - 1) as nat, local);
            },
            _ => {},
        }
    }
}


/// The expression that stands for the value of an operand: that of the
/// type of its place, which is read and not consumed, or the literal.
pub open spec fn resolve_operand_spec(nodes: Seq<ExprNode>, env: EnvModel, operand: Operand) -> (
    Seq<ExprNode>,
    TyResult<ExprId>,
) {
    match operand {
        Operand::Copy(p) | Operand::Move(p) => match env.lookup_place(p) {
            Ok(ty) => match value_of_spec(nodes, ty) {
                Some((_, e)) => (nodes, Ok(e)),
                None => (nodes, Err(TyError::Operand(ty))),
            },
            Err(e) => (nodes, Err(e)),
        },
        Operand::Constant(c) => (
            intern_spec(nodes, ExprNode::Constant(literal_spec(c))).0,
            Ok(intern_spec(nodes, ExprNode::Constant(literal_spec(c))).1),
        ),
    }
}

/// Giving a local a type: the values of the type are named under the
/// cursor, and the local is bound to the type under a new identifier.
pub open spec fn annotate_local_spec(
    nodes: Seq<ExprNode>,
    tree: TreeModel,
    c: Cursor,
    env: EnvModel,
    local: ir::Local,
    ty: Ty,
) -> (Seq<ExprNode>, TreeModel, Cursor, EnvModel, TyResult<()>) {
    let (n1, t1, c1, ty1) = unpack_spec(nodes, tree, c, ty);
    (n1, t1, c1, env.define_local(local, ty1).0, env.define_local(local, ty1).1)
}

/// Checking a right-hand side against a type: its type is synthesised,
/// and must be a subtype of the given one.
pub open spec fn check_syn_spec(
    nodes: Seq<ExprNode>,
    tree: TreeModel,
    c: Cursor,
    env: EnvModel,
    term: Rvalue,
    ty: Ty,
) -> Outcome<()> {
    let o = check_rvalue_spec(nodes, tree, c, env, term);
    match o.result {
        Ok(synth_ty) => {
            let (n1, t1, r) = subtyping_spec(o.nodes, o.tree, c, synth_ty, ty);
            Outcome { nodes: n1, tree: t1, env: o.env, result: r }
        },
        Err(e) => Outcome { nodes: o.nodes, tree: o.tree, env: o.env, result: Err(e) },
    }
}

impl Env {
    /// The expression that stands for the value of an operand.
    pub fn resolve_operand(&self, interner: &mut Interner, operand: &Operand) -> (r: TyResult<ExprId>)
        requires
            self.wf(),
            old(interner).wf(),
            self@.exprs_below(old(interner)@.len()),
        ensures
            (final(interner)@, r) == resolve_operand_spec(old(interner)@, self@, *operand),
            final(interner).wf(),
            arena_extends(final(interner)@, old(interner)@),
            r is Ok ==> r->Ok_0 < final(interner)@.len(),
    {
        match operand {
            Operand::Copy(p) | Operand::Move(p) => {
                proof {
                    lemma_lookup_below(self@, *p, interner@.len());
                }
                match self.lookup_place(*p) {
                    Ok(ty) => match value_of(interner, ty) {
                        Some((_, e)) => Ok(e),
                        None => Err(TyError::Operand(ty)),
                    },
                    Err(e) => Err(e),
                }
            },
            Operand::Constant(c) => {
                let literal = match c {
                    ir::Constant::Int(n, _) => Constant::from_i128(*n),
                    ir::Constant::Uint(n, _) => Constant::from_u128(*n),
                    ir::Constant::Bool(b) => Constant::from_bool(*b),
                };
                Ok(interner.intern(ExprNode::Constant(literal)))
            },
        }
    }

    /// Gives a local a type.
    pub fn annotate_local(
        &mut self,
        interner: &mut Interner,
        builder: &mut ConstraintBuilder,
        cursor: &mut Cursor,
        local: ir::Local,
        ty: Ty,
    ) -> (r: TyResult<()>)
        requires
            ready(old(interner)@, old(builder)@, old(self)@, *old(cursor)),
            ty.expr_below(old(interner)@.len()),
        ensures
            (final(interner)@, final(builder)@, *final(cursor), final(self)@, r) == annotate_local_spec(
                old(interner)@,
                old(builder)@,
                *old(cursor),
                old(self)@,
                local,
                ty,
            ),
            ready(final(interner)@, final(builder)@, final(self)@, *final(cursor)),
            arena_extends(final(interner)@, old(interner)@),
    {
        let ty = cursor.unpack(interner, builder, ty);
        proof {
            lemma_env_below_later(self@, old(interner)@.len(), interner@.len());
        }
        let ghost mid = self@;
        let r = self.define_local(local, ty);
        proof {
            if r is Ok {
                lemma_set_slot_below(mid, crate::env::Slot::Local(local), ty, interner@.len());
            }
        }
        r
    }

    /// The subtyping judgment `ty1 <: ty2` at a cursor, for the place
    /// `span` of the source: where the shapes do not fit, the error says
    /// so of that place.
    pub fn is_subtype(
        &self,
        interner: &mut Interner,
        builder: &mut ConstraintBuilder,
        cursor: &Cursor,
        ty1: Ty,
        ty2: Ty,
        span: Span,
    ) -> (r: Result<(), Located>)
        requires
            ready(old(interner)@, old(builder)@, self@, *cursor),
            ty1.expr_below(old(interner)@.len()),
            ty2.expr_below(old(interner)@.len()),
        ensures
            final(interner)@ == subtyping_spec(old(interner)@, old(builder)@, *cursor, ty1, ty2).0,
            final(builder)@ == subtyping_spec(old(interner)@, old(builder)@, *cursor, ty1, ty2).1,
            r == located_spec(subtyping_spec(old(interner)@, old(builder)@, *cursor, ty1, ty2).2, span),
            ready(final(interner)@, final(builder)@, self@, *cursor),
            arena_extends(final(interner)@, old(interner)@),
    {
        let r = cursor.subtyping(interner, builder, ty1, ty2);
        proof {
            lemma_env_below_later(self@, old(interner)@.len(), interner@.len());
        }
        located(r, span)
    }

    /// Checks a right-hand side against a type, for the place `span` of
    /// the source: an error is one of that place.
    pub fn check_syn(
        &mut self,
        interner: &mut Interner,
        builder: &mut ConstraintBuilder,
        cursor: &Cursor,
        term: &Rvalue,
        ty: Ty,
        span: Span,
    ) -> (r: Result<(), Located>)
        requires
            ready(old(interner)@, old(builder)@, old(self)@, *cursor),
            ty.expr_below(old(interner)@.len()),
        ensures
            final(interner)@ == check_syn_spec(old(interner)@, old(builder)@, *cursor, old(self)@, *term, ty).nodes,
            final(builder)@ == check_syn_spec(old(interner)@, old(builder)@, *cursor, old(self)@, *term, ty).tree,
            final(self)@ == check_syn_spec(old(interner)@, old(builder)@, *cursor, old(self)@, *term, ty).env,
            r == located_spec(
                check_syn_spec(old(interner)@, old(builder)@, *cursor, old(self)@, *term, ty).result,
                span,
            ),
            ready(final(interner)@, final(builder)@, final(self)@, *cursor),
            arena_extends(final(interner)@, old(interner)@),
    {
        let synth_ty = match Checker::check_rvalue(interner, builder, cursor, self, term) {
            Ok(ty) => ty,
            Err(kind) => {
                return Err(Located { kind, span });
            },
        };
        let ghost mid = interner@;
        let r = cursor.subtyping(interner, builder, synth_ty, ty);
        proof {
            lemma_env_below_later(self@, mid.len(), interner@.len());
        }
        located(r, span)
    }
}

} // verus!
