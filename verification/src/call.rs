//! The rule of a call: inference of the substitution, the caller's
//! obligations, and what the callee leaves behind.

use vstd::prelude::*;
use crate::checker::{Checker, Pending, PendingModel};
use crate::constraint::{
    pinned_spec,
    subtyping_spec,
    unpack_spec,
    value_of,
    value_of_spec,
    ConstraintBuilder,
    Cursor,
    Node,
    NodeKind,
    TreeModel,
};
use crate::env::{lemma_env_below_later, lemma_set_slot_below, Env, EnvModel};
use crate::global_env::{lemma_sig_below_later, FnSig, GlobalEnv, Param};
use crate::intern::{arena_extends, arena_wf, Interner};
use crate::ir::{BasicBlock, Operand, Place};
use crate::result::{Span, TyError, TyResult};
use crate::rules::{
    check_operand_spec,
    lemma_lookup_below,
    lemma_tree_below_later,
    ready,
};
use crate::semantics::{
    holds, hypotheses_hold, law_failing_goal_refutes_the_query, mentions_hole_spec, satisfiable, Valuation,
};
use crate::subst::{
    bindings_below,
    instantiate_spec,
    lemma_bindings_below_later,
    subst_expr_spec,
    subst_ty_spec,
    Subst,
    SubstModel,
};
use crate::ty::{BaseTy, BinOp, Constant, ExprId, ExprNode, FnId, Name, RegionId, Ty};

verus! {

/// Puts `acc` before the types of an outcome.
pub open spec fn with_prefix(acc: Seq<Ty>, o: (Seq<ExprNode>, EnvModel, TyResult<Seq<Ty>>)) -> (
    Seq<ExprNode>,
    EnvModel,
    TyResult<Seq<Ty>>,
) {
    (
        o.0,
        o.1,
        match o.2 {
            Ok(tys) => Ok(acc + tys),
            Err(e) => Err(e),
        },
    )
}

/// The types of the operands from `i` on, typed from left to right, up to
/// the first that fails.
pub open spec fn check_operands_spec(nodes: Seq<ExprNode>, env: EnvModel, args: Seq<Operand>, i: int) -> (
    Seq<ExprNode>,
    EnvModel,
    TyResult<Seq<Ty>>,
)
    decreases args.len() - i,
{
    if i < 0 || i >= args.len() {
        (nodes, env, Ok(Seq::empty()))
    } else {
        let (n1, env1, r) = check_operand_spec(nodes, env, args[i]);
        match r {
            Err(e) => (n1, env1, Err(e)),
            Ok(ty) => with_prefix(seq![ty], check_operands_spec(n1, env1, args, i + 1)),
        }
    }
}

/// The name that a type pins its values to: `x` where the type is a
/// refinement by "the value equals `x`".
pub open spec fn index_name_spec(nodes: Seq<ExprNode>, ty: Ty) -> Option<Name> {
    match value_of_spec(nodes, ty) {
        Some((_, e)) => match nodes[e as int] {
            ExprNode::Free(x) => Some(x),
            _ => None,
        },
        None => None,
    }
}

/// Where the formal type pins its values to a name that is not bound yet,
/// and the actual type pins its values down, the name is bound to the
/// actual value. A name that is bound stays as it is.
pub open spec fn bind_index(nodes: Seq<ExprNode>, subst: SubstModel, formal: Ty, actual: Ty) -> SubstModel {
    match (index_name_spec(nodes, formal), value_of_spec(nodes, actual)) {
        (Some(x), Some((_, ea))) => if subst.exprs.contains_key(x) {
            subst
        } else {
            SubstModel { exprs: subst.exprs.insert(x, ea), ..subst }
        },
        _ => subst,
    }
}

/// What one argument says of the substitution. A reference parameter
/// binds its region name to the region of the argument, and has no
/// solution where the argument is no reference or the name is bound to
/// another region.
pub open spec fn infer_arg(nodes: Seq<ExprNode>, subst: SubstModel, formal: Ty, actual: Ty) -> Option<
    SubstModel,
> {
    match formal {
        Ty::MutRef(l) => match actual {
            Ty::MutRef(r) => if subst.regions.contains_key(l) {
                if subst.regions[l] == r {
                    Some(subst)
                } else {
                    None
                }
            } else {
                Some(SubstModel { regions: subst.regions.insert(l, r), ..subst })
            },
            _ => None,
        },
        _ => Some(bind_index(nodes, subst, formal, actual)),
    }
}

pub open spec fn infer_args_spec(
    nodes: Seq<ExprNode>,
    subst: SubstModel,
    formals: Seq<Ty>,
    actuals: Seq<Ty>,
    i: int,
) -> Option<SubstModel>
    decreases formals.len() - i,
{
    if i < 0 || i >= formals.len() || i >= actuals.len() {
        Some(subst)
    } else {
        match infer_arg(nodes, subst, formals[i], actuals[i]) {
            None => None,
            Some(s1) => infer_args_spec(nodes, s1, formals, actuals, i + 1),
        }
    }
}

/// What one region precondition says of the substitution: its region name
/// must be bound to a region of the environment, and its type may bind a
/// name to what that region holds.
pub open spec fn infer_require(nodes: Seq<ExprNode>, env: EnvModel, subst: SubstModel, l: Name, ty: Ty) -> Option<
    SubstModel,
> {
    if subst.regions.contains_key(l) {
        match env.lookup_region(subst.regions[l]) {
            Some(actual) => Some(bind_index(nodes, subst, ty, actual)),
            None => None,
        }
    } else {
        None
    }
}

pub open spec fn infer_requires_spec(
    nodes: Seq<ExprNode>,
    env: EnvModel,
    subst: SubstModel,
    preconds: Seq<(Name, Ty)>,
    i: int,
) -> Option<SubstModel>
    decreases preconds.len() - i,
{
    if i < 0 || i >= preconds.len() {
        Some(subst)
    } else {
        match infer_require(nodes, env, subst, preconds[i].0, preconds[i].1) {
            None => None,
            Some(s1) => infer_requires_spec(nodes, env, s1, preconds, i + 1),
        }
    }
}

/// Every logical parameter from `i` on is bound.
pub open spec fn params_bound(subst: SubstModel, params: Seq<Param>, i: int) -> bool {
    forall|k: int| i <= k < params.len() ==> subst.exprs.contains_key((#[trigger] params[k]).name)
}

/// The substitution of a call, solved from the types of the arguments and
/// the callee's signature: there is one if there are as many arguments as
/// parameters, the arguments and the region preconditions agree on the
/// regions, and every logical parameter gets bound.
pub open spec fn infer_from_fn_call_spec(nodes: Seq<ExprNode>, env: EnvModel, actuals: Seq<Ty>, sig: &FnSig) -> Option<
    SubstModel,
> {
    let empty = SubstModel { exprs: Map::empty(), regions: Map::empty() };
    if actuals.len() != sig.args@.len() {
        None
    } else {
        match infer_args_spec(nodes, empty, sig.args@, actuals, 0) {
            None => None,
            Some(s1) => match infer_requires_spec(nodes, env, s1, sig.requires@, 0) {
                None => None,
                Some(s2) => if params_bound(s2, sig.params@, 0) {
                    Some(s2)
                } else {
                    None
                },
            },
        }
    }
}

/// The goals that the caller owes for the logical parameters from `i` on:
/// the predicate of each, under the substitution.
pub open spec fn param_heads_spec(
    nodes: Seq<ExprNode>,
    tree: TreeModel,
    c: Cursor,
    subst: SubstModel,
    params: Seq<Param>,
    i: int,
) -> (Seq<ExprNode>, TreeModel)
    decreases params.len() - i,
{
    if i < 0 || i >= params.len() {
        (nodes, tree)
    } else {
        let (n1, p) = subst_expr_spec(nodes, subst.exprs, None, params[i].pred);
        param_heads_spec(n1, tree.push(c, NodeKind::Head(p)), c, subst, params, i + 1)
    }
}

/// What the caller owes for one argument: a reference must be the
/// reference that the parameter names; anything else must be a subtype of
/// the parameter's type.
pub open spec fn check_arg_spec(
    nodes: Seq<ExprNode>,
    tree: TreeModel,
    c: Cursor,
    subst: SubstModel,
    actual: Ty,
    formal: Ty,
) -> (Seq<ExprNode>, TreeModel, TyResult<()>) {
    let (n1, f) = subst_ty_spec(nodes, subst, formal);
    match f {
        Ty::MutRef(_) => (
            n1,
            tree,
            if actual == f {
                Ok(())
            } else {
                Err(TyError::ShapeMismatch { expected: actual, found: f })
            },
        ),
        _ => subtyping_spec(n1, tree, c, actual, f),
    }
}

pub open spec fn check_args_spec(
    nodes: Seq<ExprNode>,
    tree: TreeModel,
    c: Cursor,
    subst: SubstModel,
    actuals: Seq<Ty>,
    formals: Seq<Ty>,
    i: int,
) -> (Seq<ExprNode>, TreeModel, TyResult<()>)
    decreases formals.len() - i,
{
    if i < 0 || i >= formals.len() || i >= actuals.len() {
        (nodes, tree, Ok(()))
    } else {
        let (n1, t1, r) = check_arg_spec(nodes, tree, c, subst, actuals[i], formals[i]);
        match r {
            Ok(_) => check_args_spec(n1, t1, c, subst, actuals, formals, i + 1),
            Err(e) => (n1, t1, Err(e)),
        }
    }
}

/// What the caller owes for one region precondition: what the region
/// holds must be a subtype of what the callee requires of it.
pub open spec fn check_require_spec(
    nodes: Seq<ExprNode>,
    tree: TreeModel,
    c: Cursor,
    env: EnvModel,
    subst: SubstModel,
    l: Name,
    ty: Ty,
) -> (Seq<ExprNode>, TreeModel, TyResult<()>) {
    if subst.regions.contains_key(l) {
        match env.lookup_region(subst.regions[l]) {
            Some(actual) => {
                let (n1, required) = subst_ty_spec(nodes, subst, ty);
                subtyping_spec(n1, tree, c, actual, required)
            },
            None => (nodes, tree, Err(TyError::Malformed)),
        }
    } else {
        (nodes, tree, Err(TyError::Malformed))
    }
}

pub open spec fn check_requires_spec(
    nodes: Seq<ExprNode>,
    tree: TreeModel,
    c: Cursor,
    env: EnvModel,
    subst: SubstModel,
    preconds: Seq<(Name, Ty)>,
    i: int,
) -> (Seq<ExprNode>, TreeModel, TyResult<()>)
    decreases preconds.len() - i,
{
    if i < 0 || i >= preconds.len() {
        (nodes, tree, Ok(()))
    } else {
        let (n1, t1, r) = check_require_spec(nodes, tree, c, env, subst, preconds[i].0, preconds[i].1);
        match r {
            Ok(_) => check_requires_spec(n1, t1, c, env, subst, preconds, i + 1),
            Err(e) => (n1, t1, Err(e)),
        }
    }
}

/// What the caller has in hand while the callee's postconditions are
/// applied.
pub struct CallState {
    pub nodes: Seq<ExprNode>,
    pub tree: TreeModel,
    pub cursor: Cursor,
    pub env: EnvModel,
    pub subst: SubstModel,
}

/// What one region postcondition does to the caller: a region that the
/// call knew gets the new type by a strong update; a region that the call
/// did not know is new to the caller too, and its name is bound to it.
pub open spec fn apply_ensure_spec(st: CallState, l: Name, ty: Ty) -> (CallState, TyResult<()>) {
    let (n1, updated) = subst_ty_spec(st.nodes, st.subst, ty);
    let (n2, t2, c2, unpacked) = unpack_spec(n1, st.tree, st.cursor, updated);
    if st.subst.regions.contains_key(l) {
        (
            CallState {
                nodes: n2,
                tree: t2,
                cursor: c2,
                env: st.env.update_region(st.subst.regions[l], unpacked).0,
                subst: st.subst,
            },
            st.env.update_region(st.subst.regions[l], unpacked).1,
        )
    } else {
        (
            CallState {
                nodes: n2,
                tree: t2,
                cursor: c2,
                env: st.env.push_region(unpacked).0,
                subst: SubstModel {
                    regions: st.subst.regions.insert(l, st.env.push_region(unpacked).1),
                    ..st.subst
                },
            },
            Ok(()),
        )
    }
}

pub open spec fn apply_ensures_spec(st: CallState, postconds: Seq<(Name, Ty)>, i: int) -> (
    CallState,
    TyResult<()>,
)
    decreases postconds.len() - i,
{
    if i < 0 || i >= postconds.len() {
        (st, Ok(()))
    } else {
        let (st1, r) = apply_ensure_spec(st, postconds[i].0, postconds[i].1);
        match r {
            Ok(_) => apply_ensures_spec(st1, postconds, i + 1),
            Err(e) => (st1, Err(e)),
        }
    }
}

/// What a call leaves behind: arena, tree and cursor, and the jump to the
/// block where the caller goes on, if the call returns there.
pub struct CallOutcome {
    pub nodes: Seq<ExprNode>,
    pub tree: TreeModel,
    pub cursor: Cursor,
    pub next: TyResult<Option<PendingModel>>,
}

/// Where the caller goes on: the destination gets the callee's return
/// type, under the substitution and with its values named.
pub open spec fn call_return_spec(
    st: CallState,
    ret: Ty,
    destination: Option<(Place, BasicBlock)>,
    main: bool,
) -> CallOutcome {
    match destination {
        None => CallOutcome { nodes: st.nodes, tree: st.tree, cursor: st.cursor, next: Ok(None) },
        Some((p, bb)) => {
            let (n1, ret1) = subst_ty_spec(st.nodes, st.subst, ret);
            let (n2, t2, c2, ret2) = unpack_spec(n1, st.tree, st.cursor, ret1);
            let (env2, r) = st.env.write_place(p, ret2);
            CallOutcome {
                nodes: n2,
                tree: t2,
                cursor: c2,
                next: match r {
                    Ok(_) => Ok(Some(PendingModel { env: env2, cursor: c2, target: bb, main })),
                    Err(e) => Err(e),
                },
            }
        },
    }
}

/// The rule of a call, once the callee's signature is at hand.
pub open spec fn check_call_with_spec(
    sig: &FnSig,
    nodes: Seq<ExprNode>,
    tree: TreeModel,
    c: Cursor,
    env: EnvModel,
    span: Span,
    args: Seq<Operand>,
    destination: Option<(Place, BasicBlock)>,
    main: bool,
) -> CallOutcome {
    let (n1, env1, r1) = check_operands_spec(nodes, env, args, 0);
    match r1 {
        Err(e) => CallOutcome { nodes: n1, tree, cursor: c, next: Err(e) },
        Ok(actuals) => match infer_from_fn_call_spec(n1, env1, actuals, sig) {
            None => CallOutcome { nodes: n1, tree, cursor: c, next: Err(TyError::Inference(span)) },
            Some(subst) => {
                let (n2, t2) = param_heads_spec(n1, tree, c, subst, sig.params@, 0);
                let (n3, t3, r3) = check_args_spec(n2, t2, c, subst, actuals, sig.args@, 0);
                match r3 {
                    Err(e) => CallOutcome { nodes: n3, tree: t3, cursor: c, next: Err(e) },
                    Ok(_) => {
                        let (n4, t4, r4) = check_requires_spec(n3, t3, c, env1, subst, sig.requires@, 0);
                        match r4 {
                            Err(e) => CallOutcome { nodes: n4, tree: t4, cursor: c, next: Err(e) },
                            Ok(_) => {
                                let (st5, r5) = apply_ensures_spec(
                                    CallState { nodes: n4, tree: t4, cursor: c, env: env1, subst },
                                    sig.ensures@,
                                    0,
                                );
                                match r5 {
                                    Err(e) => CallOutcome {
                                        nodes: st5.nodes,
                                        tree: st5.tree,
                                        cursor: st5.cursor,
                                        next: Err(e),
                                    },
                                    Ok(_) => call_return_spec(st5, sig.ret, destination, main),
                                }
                            },
                        }
                    },
                }
            },
        },
    }
}

/// The rule of a call. The arguments are typed; the substitution is
/// solved for, and the call fails at its place in the source if there is
/// none; the caller owes the predicates of the logical parameters, the
/// types of the arguments and the region preconditions; the region
/// postconditions are applied; and the destination gets the return type.
pub open spec fn check_call_spec(
    genv: &GlobalEnv,
    nodes: Seq<ExprNode>,
    tree: TreeModel,
    c: Cursor,
    env: EnvModel,
    span: Span,
    func: FnId,
    args: Seq<Operand>,
    destination: Option<(Place, BasicBlock)>,
    main: bool,
) -> CallOutcome {
    if genv.specs@.contains_key(func) {
        check_call_with_spec(&genv.specs@[func].fn_sig, nodes, tree, c, env, span, args, destination, main)
    } else {
        CallOutcome { nodes, tree, cursor: c, next: Err(TyError::Malformed) }
    }
}

/// What is owed for an argument is owed whether or not it can be had.
/// For an argument whose type pins its value down and a parameter of the
/// same base type, the rule adds one goal under the cursor and nothing
/// else, and succeeds: the predicate of the parameter, under the
/// substitution, said of the value of the argument.
pub proof fn law_argument_goal_is_owed(
    nodes: Seq<ExprNode>,
    tree: TreeModel,
    c: Cursor,
    subst: SubstModel,
    b: BaseTy,
    p1: ExprId,
    p2: ExprId,
)
    requires
        pinned_spec(subst_ty_spec(nodes, subst, Ty::Refine(b, p2)).0, p1) is Some,
    ensures
        ({
            let (n1, formal) = subst_ty_spec(nodes, subst, Ty::Refine(b, p2));
            let value = pinned_spec(n1, p1)->0;
            let (n2, goal) = instantiate_spec(n1, formal->Refine_1, value);
            check_arg_spec(nodes, tree, c, subst, Ty::Refine(b, p1), Ty::Refine(b, p2)) == (
                n2,
                tree.push(c, NodeKind::Head(goal)),
                Ok::<(), TyError>(()),
            )
        }),
{
}

/// A parameter that no value satisfies leaves the caller with a goal that
/// never holds: for a parameter refined by the literal `false` and an
/// argument whose type pins its value down, the rule adds the goal
/// `false` under the cursor, whatever the substitution and the argument,
/// and succeeds. Whether the hypotheses around it can all hold is for the
/// solver to say.
pub proof fn law_impossible_argument_is_owed(
    nodes: Seq<ExprNode>,
    tree: TreeModel,
    c: Cursor,
    subst: SubstModel,
    b: BaseTy,
    p1: ExprId,
    p2: ExprId,
    rho: Valuation,
)
    requires
        p2 < nodes.len(),
        nodes[p2 as int] == ExprNode::Constant(Constant::Bool(false)),
        pinned_spec(nodes, p1) is Some,
    ensures
        check_arg_spec(nodes, tree, c, subst, Ty::Refine(b, p1), Ty::Refine(b, p2)) == (
            nodes,
            tree.push(c, NodeKind::Head(p2)),
            Ok::<(), TyError>(()),
        ),
        !holds(nodes, p2, rho),
{
}

/// The tree has the goal `p` directly under the node `parent`.
pub open spec fn has_head(tree: TreeModel, parent: usize, p: ExprId) -> bool {
    exists|i: int| 0 <= i < tree.nodes.len() && #[trigger] tree.nodes[i] == (Node { parent, kind: NodeKind::Head(p) })
}

/// A goal that the tree has stays as the tree grows.
pub proof fn lemma_has_head_later(earlier: TreeModel, later: TreeModel, parent: usize, p: ExprId)
    requires
        later.extends(earlier),
        has_head(earlier, parent, p),
    ensures
        has_head(later, parent, p),
{
    let i = choose|i: int|
        0 <= i < earlier.nodes.len() && #[trigger] earlier.nodes[i] == (Node { parent, kind: NodeKind::Head(p) });
    assert(later.nodes[i] == earlier.nodes[i]);
}

/// An argument that owes what cannot be had: the parameter is refined by
/// the literal `false`, and the argument is of the same base type and
/// pins its value down.
pub open spec fn owes_false_spec(nodes: Seq<ExprNode>, formal: Ty, actual: Ty) -> bool {
    &&& formal is Refine
    &&& actual is Refine
    &&& formal->Refine_0 == actual->Refine_0
    &&& formal->Refine_1 < nodes.len()
    &&& nodes[formal->Refine_1 as int] == ExprNode::Constant(Constant::Bool(false))
    &&& actual->Refine_1 < nodes.len()
    &&& pinned_spec(nodes, actual->Refine_1) is Some
}

/// The `k`-th argument of a call owes what cannot be had.
pub open spec fn call_owes_false_spec(sig: &FnSig, nodes: Seq<ExprNode>, env: EnvModel, args: Seq<Operand>, k: int) -> bool {
    let (n1, _, r1) = check_operands_spec(nodes, env, args, 0);
    r1 is Ok && 0 <= k < sig.args@.len() && k < r1->Ok_0.len() && owes_false_spec(n1, sig.args@[k], r1->Ok_0[k])
}

/// Whether a predicate pins a value down, and which, does not change as
/// the arena grows.
pub proof fn lemma_pinned_later(earlier: Seq<ExprNode>, later: Seq<ExprNode>, p: ExprId)
    requires
        arena_wf(earlier),
        arena_extends(later, earlier),
        p < earlier.len(),
    ensures
        pinned_spec(later, p) == pinned_spec(earlier, p),
{
    assert(later[p as int] == earlier[p as int]);
    assert(earlier[p as int].children_below(p as nat));
    match earlier[p as int] {
        ExprNode::BinaryOp(BinOp::Eq, a, b) => {
            assert(later[a as int] == earlier[a as int]);
            crate::semantics::lemma_mentions_binder_later(earlier, later, b);
        },
        _ => {},
    }
}

/// An argument that owes what cannot be had owes it as the arena grows.
pub proof fn lemma_owes_false_later(earlier: Seq<ExprNode>, later: Seq<ExprNode>, formal: Ty, actual: Ty)
    requires
        arena_wf(earlier),
        arena_extends(later, earlier),
        owes_false_spec(earlier, formal, actual),
    ensures
        owes_false_spec(later, formal, actual),
{
    lemma_pinned_later(earlier, later, actual->Refine_1);
    assert(later[formal->Refine_1 as int] == earlier[formal->Refine_1 as int]);
}

/// A call with an argument that owes what cannot be had cannot be proved
/// where it can be reached: if the tree has the goal `false` under a
/// node, and under some valuation all hypotheses in force at that node
/// hold, none of which mentions a hole, then no reading of the holes
/// makes every goal of the tree follow.
pub proof fn law_impossible_goal_refutes_the_query(
    nodes: Seq<ExprNode>,
    tree: TreeModel,
    parent: usize,
    p: ExprId,
    rho: Valuation,
)
    requires
        arena_wf(nodes),
        tree.wf(),
        has_head(tree, parent, p),
        p < nodes.len(),
        nodes[p as int] == ExprNode::Constant(Constant::Bool(false)),
        forall|k: int|
            0 <= k < tree.hypotheses(parent as int).len() ==> (#[trigger] tree.hypotheses(parent as int)[k])
                < nodes.len() && !mentions_hole_spec(nodes, tree.hypotheses(parent as int)[k]),
        hypotheses_hold(nodes, tree, parent as int, rho),
    ensures
        !satisfiable(nodes, tree),
{
    let i = choose|i: int|
        0 <= i < tree.nodes.len() && #[trigger] tree.nodes[i] == (Node { parent, kind: NodeKind::Head(p) });
    assert(tree.nodes[0].kind is Scope);
    assert(i >= 1);
    assert(tree.nodes[i].parent < i);
    assert(tree.hypotheses(i) == tree.hypotheses(parent as int));
    law_failing_goal_refutes_the_query(nodes, tree, i, rho);
}

/// The substitution that replaces nothing.
pub open spec fn empty_subst() -> SubstModel {
    SubstModel { exprs: Map::empty(), regions: Map::empty() }
}

/// A type that names neither a region nor its value: no reference, and no
/// refinement by "the value equals `x`" for a name `x`.
pub open spec fn plain_ty_spec(nodes: Seq<ExprNode>, ty: Ty) -> bool {
    !(ty is MutRef) && index_name_spec(nodes, ty) is None
}

/// A signature whose call needs no substitution: no logical parameter, no
/// region precondition or postcondition, and arguments of types that name
/// nothing. Arguments of closed types, which mention no name at all, are
/// such.
pub open spec fn plain_sig_spec(nodes: Seq<ExprNode>, sig: &FnSig) -> bool {
    &&& sig.params@.len() == 0
    &&& sig.requires@.len() == 0
    &&& sig.ensures@.len() == 0
    &&& forall|i: int| 0 <= i < sig.args@.len() ==> plain_ty_spec(nodes, #[trigger] sig.args@[i])
}

/// What the caller owes for the arguments from `i` on where nothing is
/// substituted: each must be a subtype of the parameter's type as the
/// signature has it.
pub open spec fn plain_args_spec(
    nodes: Seq<ExprNode>,
    tree: TreeModel,
    c: Cursor,
    actuals: Seq<Ty>,
    formals: Seq<Ty>,
    i: int,
) -> (Seq<ExprNode>, TreeModel, TyResult<()>)
    decreases formals.len() - i,
{
    if i < 0 || i >= formals.len() || i >= actuals.len() {
        (nodes, tree, Ok(()))
    } else {
        let (n1, t1, r) = subtyping_spec(nodes, tree, c, actuals[i], formals[i]);
        match r {
            Ok(_) => plain_args_spec(n1, t1, c, actuals, formals, i + 1),
            Err(e) => (n1, t1, Err(e)),
        }
    }
}

/// The rule of a call where nothing is substituted: the arguments are
/// typed, there must be as many as parameters, each must be a subtype of
/// the parameter's type as the signature has it, and the destination gets
/// the return type as the signature has it, with its values named.
pub open spec fn plain_call_spec(
    sig: &FnSig,
    nodes: Seq<ExprNode>,
    tree: TreeModel,
    c: Cursor,
    env: EnvModel,
    span: Span,
    args: Seq<Operand>,
    destination: Option<(Place, BasicBlock)>,
    main: bool,
) -> CallOutcome {
    let (n1, env1, r1) = check_operands_spec(nodes, env, args, 0);
    match r1 {
        Err(e) => CallOutcome { nodes: n1, tree, cursor: c, next: Err(e) },
        Ok(actuals) => if actuals.len() != sig.args@.len() {
            CallOutcome { nodes: n1, tree, cursor: c, next: Err(TyError::Inference(span)) }
        } else {
            let (n2, t2, r2) = plain_args_spec(n1, tree, c, actuals, sig.args@, 0);
            match r2 {
                Err(e) => CallOutcome { nodes: n2, tree: t2, cursor: c, next: Err(e) },
                Ok(_) => match destination {
                    None => CallOutcome { nodes: n2, tree: t2, cursor: c, next: Ok(None) },
                    Some((p, bb)) => {
                        let (n3, t3, c3, ret) = unpack_spec(n2, t2, c, sig.ret);
                        let (env3, r3) = env1.write_place(p, ret);
                        CallOutcome {
                            nodes: n3,
                            tree: t3,
                            cursor: c3,
                            next: match r3 {
                                Ok(_) => Ok(Some(PendingModel { env: env3, cursor: c3, target: bb, main })),
                                Err(e) => Err(e),
                            },
                        }
                    },
                },
            }
        }
    }
}

/// Whether a type names its value does not change as the arena grows.
pub proof fn lemma_index_name_later(earlier: Seq<ExprNode>, later: Seq<ExprNode>, ty: Ty)
    requires
        arena_wf(earlier),
        arena_extends(later, earlier),
        ty.expr_below(earlier.len()),
    ensures
        index_name_spec(later, ty) == index_name_spec(earlier, ty),
{
    match ty {
        Ty::Refine(_, p) => {
            assert(later[p as int] == earlier[p as int]);
            assert(earlier[p as int].children_below(p as nat));
            match earlier[p as int] {
                ExprNode::BinaryOp(BinOp::Eq, a, b) => {
                    assert(later[a as int] == earlier[a as int]);
                    assert(later[b as int] == earlier[b as int]);
                    crate::semantics::lemma_mentions_binder_later(earlier, later, b);
                },
                _ => {},
            }
        },
        _ => {},
    }
}

/// Arguments of types that name nothing bind nothing.
pub proof fn lemma_plain_args_bind_nothing(nodes: Seq<ExprNode>, formals: Seq<Ty>, actuals: Seq<Ty>, i: int)
    requires
        0 <= i,
        forall|k: int| 0 <= k < formals.len() ==> plain_ty_spec(nodes, #[trigger] formals[k]),
    ensures
        infer_args_spec(nodes, empty_subst(), formals, actuals, i) == Some(empty_subst()),
    decreases formals.len() - i,
{
    if i < formals.len() && i < actuals.len() {
        assert(plain_ty_spec(nodes, formals[i]));
        lemma_plain_args_bind_nothing(nodes, formals, actuals, i + 1);
    }
}

/// The substitution of a call of a signature that needs none is the
/// substitution that replaces nothing, where the number of arguments
/// fits.
pub proof fn lemma_plain_inference(nodes: Seq<ExprNode>, env: EnvModel, actuals: Seq<Ty>, sig: &FnSig)
    requires
        plain_sig_spec(nodes, sig),
    ensures
        infer_from_fn_call_spec(nodes, env, actuals, sig) == if actuals.len() == sig.args@.len() {
            Some(empty_subst())
        } else {
            None
        },
{
    lemma_plain_args_bind_nothing(nodes, sig.args@, actuals, 0);
}

/// What the caller has in hand once the first `k` postconditions are
/// applied.
pub open spec fn ensured_upto(st: CallState, postconds: Seq<(Name, Ty)>, k: int) -> CallState
    decreases k,
{
    if k <= 0 || k > postconds.len() {
        st
    } else {
        apply_ensure_spec(ensured_upto(st, postconds, k - 1), postconds[k - 1].0, postconds[k - 1].1).0
    }
}

/// The type that the `k`-th postcondition gives its region: its type
/// under the substitution, with its values named, as the caller stands
/// when the postcondition is applied.
pub open spec fn ensured_type(st: CallState, postconds: Seq<(Name, Ty)>, k: int) -> Ty {
    let before = ensured_upto(st, postconds, k);
    let (n1, updated) = subst_ty_spec(before.nodes, before.subst, postconds[k].1);
    unpack_spec(n1, before.tree, before.cursor, updated).3
}

/// Where all postconditions can be applied, applying them is applying
/// the first `k` and then the rest, and each of the first `k` can be
/// applied.
pub proof fn lemma_ensures_split(st: CallState, postconds: Seq<(Name, Ty)>, k: int)
    requires
        0 <= k <= postconds.len(),
        apply_ensures_spec(st, postconds, 0).1 is Ok,
    ensures
        apply_ensures_spec(ensured_upto(st, postconds, k), postconds, k) == apply_ensures_spec(st, postconds, 0),
    decreases k,
{
    if k > 0 {
        lemma_ensures_split(st, postconds, k - 1);
    }
}

/// Applying the postconditions from `i` on keeps every binding of a
/// region name, binds the name of each, and keeps what a region holds
/// that none of them is of.
pub proof fn lemma_ensures_frame(st: CallState, postconds: Seq<(Name, Ty)>, i: int, l: Name, r: RegionId)
    requires
        0 <= i <= postconds.len(),
        apply_ensures_spec(st, postconds, i).1 is Ok,
    ensures
        ({
            let fin = apply_ensures_spec(st, postconds, i).0;
            &&& st.env.regions.len() <= fin.env.regions.len()
            &&& st.subst.regions.contains_key(l) ==> fin.subst.regions.contains_key(l) && fin.subst.regions[l]
                == st.subst.regions[l]
            &&& forall|j: int| i <= j < postconds.len() ==> fin.subst.regions.contains_key(#[trigger] postconds[j].0)
            &&& r < st.env.regions.len() && (forall|j: int|
                i <= j < postconds.len() ==> fin.subst.regions[#[trigger] postconds[j].0] != r)
                ==> fin.env.regions[r as int] == st.env.regions[r as int]
        }),
    decreases postconds.len() - i,
{
    if i < postconds.len() {
        let name = postconds[i].0;
        let st1 = apply_ensure_spec(st, name, postconds[i].1).0;
        let fin = apply_ensures_spec(st, postconds, i).0;
        lemma_ensures_frame(st1, postconds, i + 1, l, r);
        lemma_ensures_frame(st1, postconds, i + 1, name, r);
        assert(st1.subst.regions.contains_key(name));
        assert forall|j: int| i <= j < postconds.len() implies fin.subst.regions.contains_key(
            #[trigger] postconds[j].0,
        ) by {
            if j > i {
                assert(fin.subst.regions.contains_key(postconds[j].0));
            }
        }
        if r < st.env.regions.len() && (forall|j: int|
            i <= j < postconds.len() ==> fin.subst.regions[#[trigger] postconds[j].0] != r) {
            assert(fin.subst.regions[postconds[i].0] != r);
            assert(st1.env.regions[r as int] == st.env.regions[r as int]);
        }
    }
}

/// A postcondition of a call updates its region: once all postconditions
/// are applied, the region of the `k`-th holds the type that the `k`-th
/// gave it, unless a later one is of the same region. The region is the
/// one that the call knew under the name, or, for a name that the call
/// did not know, the new one that the name is bound to. A return to a
/// local leaves it so: what is read through a reference after the call is
/// the type after the call.
pub proof fn law_postcondition_updates_region(
    st: CallState,
    postconds: Seq<(Name, Ty)>,
    k: int,
    ret: Ty,
    dest: crate::ir::Local,
    bb: BasicBlock,
    main: bool,
)
    requires
        0 <= k < postconds.len(),
        apply_ensures_spec(st, postconds, 0).1 is Ok,
        apply_ensures_spec(st, postconds, 0).0.env.regions.len() <= usize::MAX,
        forall|j: int|
            k < j < postconds.len() ==> apply_ensures_spec(st, postconds, 0).0.subst.regions[#[trigger] postconds[j].0]
                != apply_ensures_spec(st, postconds, 0).0.subst.regions[postconds[k].0],
    ensures
        ({
            let fin = apply_ensures_spec(st, postconds, 0).0;
            let r = fin.subst.regions[postconds[k].0];
            let o = call_return_spec(fin, ret, Some((Place { local: dest, derefs: 0 }, bb)), main);
            &&& fin.subst.regions.contains_key(postconds[k].0)
            &&& st.subst.regions.contains_key(postconds[k].0) ==> r == st.subst.regions[postconds[k].0]
            &&& fin.env.lookup_region(r) == Some(ensured_type(st, postconds, k))
            &&& o.next is Ok ==> o.next->Ok_0 is Some && (o.next->Ok_0->0).env.lookup_region(r) == Some(
                ensured_type(st, postconds, k),
            )
        }),
{
    let fin = apply_ensures_spec(st, postconds, 0).0;
    let name = postconds[k].0;
    let before = ensured_upto(st, postconds, k);
    let after = ensured_upto(st, postconds, k + 1);
    lemma_ensures_split(st, postconds, k);
    lemma_ensures_split(st, postconds, k + 1);
    assert(after == apply_ensure_spec(before, name, postconds[k].1).0);
    assert(apply_ensure_spec(before, name, postconds[k].1).1 is Ok);
    let r = after.subst.regions[name];
    lemma_ensures_frame(after, postconds, k + 1, name, r);
    lemma_ensures_frame(st, postconds, 0, name, r);
    if st.subst.regions.contains_key(name) {
        lemma_upto_keeps_names(st, postconds, k, name);
    }
    assert(after.env.regions.len() <= fin.env.regions.len());
    assert(r < after.env.regions.len());
    assert(after.env.regions[r as int] == ensured_type(st, postconds, k));
}

/// Applying the first `k` postconditions keeps every binding of a region
/// name.
pub proof fn lemma_upto_keeps_names(st: CallState, postconds: Seq<(Name, Ty)>, k: int, l: Name)
    requires
        0 <= k <= postconds.len(),
        st.subst.regions.contains_key(l),
    ensures
        ensured_upto(st, postconds, k).subst.regions.contains_key(l),
        ensured_upto(st, postconds, k).subst.regions[l] == st.subst.regions[l],
    decreases k,
{
    if k > 0 {
        lemma_upto_keeps_names(st, postconds, k - 1, l);
    }
}

/// Where the substitution of a call replaces every name by itself, the
/// destination gets the declared return type with its values named,
/// whatever the call did before.
pub proof fn law_identity_call_returns_the_declared_type(
    st: CallState,
    ret: Ty,
    p: Place,
    bb: BasicBlock,
    main: bool,
)
    requires
        arena_wf(st.nodes),
        st.subst.is_identity(st.nodes),
        ret.expr_below(st.nodes.len()),
    ensures
        call_return_spec(st, ret, Some((p, bb)), main) == ({
            let (n2, t2, c2, ret2) = unpack_spec(st.nodes, st.tree, st.cursor, ret);
            let (env2, r) = st.env.write_place(p, ret2);
            CallOutcome {
                nodes: n2,
                tree: t2,
                cursor: c2,
                next: match r {
                    Ok(_) => Ok(Some(PendingModel { env: env2, cursor: c2, target: bb, main })),
                    Err(e) => Err(e),
                },
            }
        }),
{
    crate::subst::law_subst_identity(st.nodes, st.subst, ret);
}

/// A call of a function that takes nothing and owes nothing gives the
/// destination the declared return type with its values named: the
/// substitution of the call replaces no name, so the return type is its
/// own image under it.
pub proof fn law_call_returns_the_declared_type(
    sig: &FnSig,
    nodes: Seq<ExprNode>,
    tree: TreeModel,
    c: Cursor,
    env: EnvModel,
    span: Span,
    p: Place,
    bb: BasicBlock,
    main: bool,
)
    requires
        arena_wf(nodes),
        sig.params@.len() == 0,
        sig.args@.len() == 0,
        sig.requires@.len() == 0,
        sig.ensures@.len() == 0,
        sig.ret.expr_below(nodes.len()),
    ensures
        check_call_with_spec(sig, nodes, tree, c, env, span, Seq::empty(), Some((p, bb)), main) == ({
            let (n2, t2, c2, ret2) = unpack_spec(nodes, tree, c, sig.ret);
            let (env2, r) = env.write_place(p, ret2);
            CallOutcome {
                nodes: n2,
                tree: t2,
                cursor: c2,
                next: match r {
                    Ok(_) => Ok(Some(PendingModel { env: env2, cursor: c2, target: bb, main })),
                    Err(e) => Err(e),
                },
            }
        }),
{
    let empty = SubstModel { exprs: Map::empty(), regions: Map::empty() };
    crate::subst::law_subst_identity(nodes, empty, sig.ret);
}

/// Every type is free of expressions that the arena lacks.
pub open spec fn types_below(tys: Seq<Ty>, n: nat) -> bool {
    forall|i: int| 0 <= i < tys.len() ==> (#[trigger] tys[i]).expr_below(n)
}

/// Every type of the pairs is free of expressions that the arena lacks.
pub open spec fn pairs_below(pairs: Seq<(Name, Ty)>, n: nat) -> bool {
    forall|i: int| 0 <= i < pairs.len() ==> (#[trigger] pairs[i]).1.expr_below(n)
}

/// Every predicate of the parameters is in the arena.
pub open spec fn params_below(params: Seq<Param>, n: nat) -> bool {
    forall|i: int| 0 <= i < params.len() ==> (#[trigger] params[i]).pred < n
}

impl<'a> Checker<'a> {
    fn push_param_heads(
        interner: &mut Interner,
        builder: &mut ConstraintBuilder,
        cursor: &Cursor,
        subst: &Subst,
        params: &Vec<Param>,
    )
        requires
            old(interner).wf(),
            old(builder).wf(),
            old(builder)@.holds(*cursor),
            old(builder)@.exprs_below(old(interner)@.len()),
            subst@.exprs_below(old(interner)@.len()),
            params_below(params@, old(interner)@.len()),
        ensures
            (final(interner)@, final(builder)@) == param_heads_spec(
                old(interner)@,
                old(builder)@,
                *cursor,
                subst@,
                params@,
                0,
            ),
            final(interner).wf(),
            arena_extends(final(interner)@, old(interner)@),
            final(builder).wf(),
            final(builder)@.holds(*cursor),
            final(builder)@.exprs_below(final(interner)@.len()),
            final(builder)@.extends(old(builder)@),
    {
        let mut i: usize = 0;
        while i < params.len()
            invariant
                i <= params.len(),
                interner.wf(),
                arena_extends(interner@, old(interner)@),
                builder.wf(),
                builder@.holds(*cursor),
                builder@.exprs_below(interner@.len()),
                builder@.extends(old(builder)@),
                subst@.exprs_below(interner@.len()),
                params_below(params@, old(interner)@.len()),
                param_heads_spec(interner@, builder@, *cursor, subst@, params@, i as int)
                    == param_heads_spec(old(interner)@, old(builder)@, *cursor, subst@, params@, 0),
            decreases params.len() - i,
        {
            let ghost before = interner@;
            assert(params@[i as int].pred < old(interner)@.len());
            let p = subst.subst_expr(interner, params[i].pred);
            proof {
                lemma_tree_below_later(builder@, before.len(), interner@.len());
                lemma_bindings_below_later(subst@.exprs, before.len(), interner@.len());
            }
            cursor.push_head(builder, p);
            i = i + 1;
        }
    }

    fn check_args(
        interner: &mut Interner,
        builder: &mut ConstraintBuilder,
        cursor: &Cursor,
        subst: &Subst,
        actuals: &Vec<Ty>,
        formals: &Vec<Ty>,
    ) -> (r: TyResult<()>)
        requires
            old(interner).wf(),
            old(builder).wf(),
            old(builder)@.holds(*cursor),
            old(builder)@.exprs_below(old(interner)@.len()),
            subst@.exprs_below(old(interner)@.len()),
            types_below(actuals@, old(interner)@.len()),
            types_below(formals@, old(interner)@.len()),
        ensures
            (final(interner)@, final(builder)@, r) == check_args_spec(
                old(interner)@,
                old(builder)@,
                *cursor,
                subst@,
                actuals@,
                formals@,
                0,
            ),
            final(interner).wf(),
            arena_extends(final(interner)@, old(interner)@),
            final(builder).wf(),
            final(builder)@.holds(*cursor),
            final(builder)@.exprs_below(final(interner)@.len()),
            final(builder)@.extends(old(builder)@),
            subst@ == empty_subst() && (forall|k: int| 0 <= k < formals@.len() ==> !(#[trigger] formals@[k] is MutRef))
                ==> (final(interner)@, final(builder)@, r) == plain_args_spec(
                old(interner)@,
                old(builder)@,
                *cursor,
                actuals@,
                formals@,
                0,
            ),
            r is Ok ==> forall|k: int|
                0 <= k < formals@.len() && k < actuals@.len() && owes_false_spec(
                    old(interner)@,
                    #[trigger] formals@[k],
                    actuals@[k],
                ) ==> has_head(final(builder)@, cursor.node, formals@[k]->Refine_1),
    {
        let mut i: usize = 0;
        while i < formals.len() && i < actuals.len()
            invariant
                subst@ == empty_subst() && (forall|k: int|
                    0 <= k < formals@.len() ==> !(#[trigger] formals@[k] is MutRef)) ==> plain_args_spec(
                    interner@,
                    builder@,
                    *cursor,
                    actuals@,
                    formals@,
                    i as int,
                ) == plain_args_spec(old(interner)@, old(builder)@, *cursor, actuals@, formals@, 0),
                old(interner).wf(),
                i <= formals@.len(),
                i <= actuals@.len(),
                forall|k: int|
                    0 <= k < i && owes_false_spec(old(interner)@, #[trigger] formals@[k], actuals@[k]) ==> has_head(
                        builder@,
                        cursor.node,
                        formals@[k]->Refine_1,
                    ),
                interner.wf(),
                arena_extends(interner@, old(interner)@),
                builder.wf(),
                builder@.holds(*cursor),
                builder@.exprs_below(interner@.len()),
                builder@.extends(old(builder)@),
                subst@.exprs_below(interner@.len()),
                types_below(actuals@, old(interner)@.len()),
                types_below(formals@, old(interner)@.len()),
                check_args_spec(interner@, builder@, *cursor, subst@, actuals@, formals@, i as int)
                    == check_args_spec(
                    old(interner)@,
                    old(builder)@,
                    *cursor,
                    subst@,
                    actuals@,
                    formals@,
                    0,
                ),
            decreases formals.len() - i,
        {
            let ghost before = interner@;
            let ghost tree_before = builder@;
            let ghost owes = owes_false_spec(old(interner)@, formals@[i as int], actuals@[i as int]);
            let actual = actuals[i];
            assert(actuals@[i as int].expr_below(old(interner)@.len()));
            assert(formals@[i as int].expr_below(old(interner)@.len()));
            let formal = subst.subst_ty(interner, formals[i]);
            proof {
                lemma_tree_below_later(builder@, before.len(), interner@.len());
                if subst@ == empty_subst() {
                    crate::subst::law_subst_identity(before, subst@, formals@[i as int]);
                }
                if owes {
                    lemma_owes_false_later(old(interner)@, before, formals@[i as int], actuals@[i as int]);
                    assert(interner@ == before && formal == formals@[i as int]);
                }
            }
            match formal {
                Ty::MutRef(_) => {
                    if actual != formal {
                        return Err(TyError::ShapeMismatch { expected: actual, found: formal });
                    }
                },
                _ => {
                    cursor.subtyping(interner, builder, actual, formal)?;
                },
            }
            proof {
                lemma_bindings_below_later(subst@.exprs, before.len(), interner@.len());
                if owes {
                    assert(builder@.nodes[tree_before.nodes.len() as int] == (Node {
                        parent: cursor.node,
                        kind: NodeKind::Head(formals@[i as int]->Refine_1),
                    }));
                }
                assert forall|k: int|
                    0 <= k < i && owes_false_spec(old(interner)@, #[trigger] formals@[k], actuals@[k]) implies has_head(
                    builder@,
                    cursor.node,
                    formals@[k]->Refine_1,
                ) by {
                    lemma_has_head_later(tree_before, builder@, cursor.node, formals@[k]->Refine_1);
                }
            }
            i = i + 1;
        }
        Ok(())
    }

    fn check_requires(
        interner: &mut Interner,
        builder: &mut ConstraintBuilder,
        cursor: &Cursor,
        env: &Env,
        subst: &Subst,
        preconds: &Vec<(Name, Ty)>,
    ) -> (r: TyResult<()>)
        requires
            ready(old(interner)@, old(builder)@, env@, *cursor),
            subst@.exprs_below(old(interner)@.len()),
            pairs_below(preconds@, old(interner)@.len()),
        ensures
            (final(interner)@, final(builder)@, r) == check_requires_spec(
                old(interner)@,
                old(builder)@,
                *cursor,
                env@,
                subst@,
                preconds@,
                0,
            ),
            final(interner).wf(),
            arena_extends(final(interner)@, old(interner)@),
            final(builder).wf(),
            final(builder)@.holds(*cursor),
            final(builder)@.exprs_below(final(interner)@.len()),
            final(builder)@.extends(old(builder)@),
    {
        let mut i: usize = 0;
        while i < preconds.len()
            invariant
                i <= preconds.len(),
                interner.wf(),
                arena_extends(interner@, old(interner)@),
                builder.wf(),
                builder@.holds(*cursor),
                builder@.exprs_below(interner@.len()),
                builder@.extends(old(builder)@),
                env.wf(),
                env@.exprs_below(interner@.len()),
                subst@.exprs_below(interner@.len()),
                pairs_below(preconds@, old(interner)@.len()),
                check_requires_spec(interner@, builder@, *cursor, env@, subst@, preconds@, i as int)
                    == check_requires_spec(
                    old(interner)@,
                    old(builder)@,
                    *cursor,
                    env@,
                    subst@,
                    preconds@,
                    0,
                ),
            decreases preconds.len() - i,
        {
            let ghost before = interner@;
            let (l, ty) = preconds[i];
            assert(preconds@[i as int].1.expr_below(old(interner)@.len()));
            let region = match subst.lookup_region(l) {
                Some(region) => region,
                None => {
                    return Err(TyError::Malformed);
                },
            };
            let actual = match env.lookup_region(region) {
                Some(actual) => actual,
                None => {
                    return Err(TyError::Malformed);
                },
            };
            assert(env@.regions[region as int].expr_below(before.len()));
            let required = subst.subst_ty(interner, ty);
            proof {
                lemma_tree_below_later(builder@, before.len(), interner@.len());
            }
            cursor.subtyping(interner, builder, actual, required)?;
            proof {
                lemma_bindings_below_later(subst@.exprs, before.len(), interner@.len());
                lemma_env_below_later(env@, before.len(), interner@.len());
            }
            i = i + 1;
        }
        Ok(())
    }

    fn apply_ensures(
        interner: &mut Interner,
        builder: &mut ConstraintBuilder,
        cursor: &mut Cursor,
        env: &mut Env,
        subst: &mut Subst,
        postconds: &Vec<(Name, Ty)>,
    ) -> (r: TyResult<()>)
        requires
            ready(old(interner)@, old(builder)@, old(env)@, *old(cursor)),
            old(subst)@.exprs_below(old(interner)@.len()),
            pairs_below(postconds@, old(interner)@.len()),
        ensures
            (
                CallState {
                    nodes: final(interner)@,
                    tree: final(builder)@,
                    cursor: *final(cursor),
                    env: final(env)@,
                    subst: final(subst)@,
                },
                r,
            ) == apply_ensures_spec(
                CallState {
                    nodes: old(interner)@,
                    tree: old(builder)@,
                    cursor: *old(cursor),
                    env: old(env)@,
                    subst: old(subst)@,
                },
                postconds@,
                0,
            ),
            ready(final(interner)@, final(builder)@, final(env)@, *final(cursor)),
            arena_extends(final(interner)@, old(interner)@),
            final(subst)@.exprs_below(final(interner)@.len()),
            final(builder)@.extends(old(builder)@),
    {
        let mut i: usize = 0;
        while i < postconds.len()
            invariant
                i <= postconds.len(),
                ready(interner@, builder@, env@, *cursor),
                arena_extends(interner@, old(interner)@),
                subst@.exprs_below(interner@.len()),
                pairs_below(postconds@, old(interner)@.len()),
                builder@.extends(old(builder)@),
                apply_ensures_spec(
                    CallState {
                        nodes: interner@,
                        tree: builder@,
                        cursor: *cursor,
                        env: env@,
                        subst: subst@,
                    },
                    postconds@,
                    i as int,
                ) == apply_ensures_spec(
                    CallState {
                        nodes: old(interner)@,
                        tree: old(builder)@,
                        cursor: *old(cursor),
                        env: old(env)@,
                        subst: old(subst)@,
                    },
                    postconds@,
                    0,
                ),
            decreases postconds.len() - i,
        {
            let ghost before = interner@;
            let ghost env_before = env@;
            let (l, ty) = postconds[i];
            assert(postconds@[i as int].1.expr_below(old(interner)@.len()));
            let updated = subst.subst_ty(interner, ty);
            proof {
                lemma_tree_below_later(builder@, before.len(), interner@.len());
            }
            let unpacked = cursor.unpack(interner, builder, updated);
            proof {
                lemma_bindings_below_later(subst@.exprs, before.len(), interner@.len());
                lemma_env_below_later(env@, before.len(), interner@.len());
            }
            match subst.lookup_region(l) {
                Some(region) => {
                    let r = env.update_region(region, unpacked);
                    proof {
                        if r is Ok {
                            lemma_set_slot_below(
                                env_before,
                                crate::env::Slot::Region(region),
                                unpacked,
                                interner@.len(),
                            );
                        }
                    }
                    r?;
                },
                None => {
                    let rvid = env.push_region(unpacked);
                    subst.insert_region(l, rvid);
                    proof {
                        assert forall|k: int| 0 <= k < env@.regions.len() implies (
                        #[trigger] env@.regions[k]).expr_below(interner@.len()) by {
                            if k < env_before.regions.len() {
                                assert(env@.regions[k] == env_before.regions[k]);
                            }
                        }
                    }
                },
            }
            i = i + 1;
        }
        Ok(())
    }

    /// The rule of a call. `substs` are the types that the call gives for
    /// the type parameters of the callee. A signature has no type
    /// parameter, so they play no part: what the rule does and returns is
    /// the same for every `substs`.
    ///
    /// Where the callee's signature needs no substitution (no logical
    /// parameter, no region precondition or postcondition, arguments of
    /// types that name nothing), the rule is the rule without
    /// substitution: the destination gets the return type as the
    /// signature has it, with its values named.
    #[verifier::rlimit(30)]
    pub fn check_call(
        global_env: &GlobalEnv,
        interner: &mut Interner,
        builder: &mut ConstraintBuilder,
        cursor: &mut Cursor,
        env: Env,
        source_info: Span,
        func: FnId,
        substs: &Vec<Ty>,
        args: &Vec<Operand>,
        destination: &Option<(Place, BasicBlock)>,
        main: bool,
    ) -> (r: TyResult<Option<Pending>>)
        requires
            ready(old(interner)@, old(builder)@, env@, *old(cursor)),
            global_env.exprs_below(old(interner)@.len()),
        ensures
            (CallOutcome {
                nodes: final(interner)@,
                tree: final(builder)@,
                cursor: *final(cursor),
                next: match r {
                    Ok(Some(p)) => Ok(Some(p@)),
                    Ok(None) => Ok(None),
                    Err(e) => Err(e),
                },
            }) == check_call_spec(
                global_env,
                old(interner)@,
                old(builder)@,
                *old(cursor),
                env@,
                source_info,
                func,
                args@,
                *destination,
                main,
            ),
            final(interner).wf(),
            arena_extends(final(interner)@, old(interner)@),
            final(builder).wf(),
            final(builder)@.exprs_below(final(interner)@.len()),
            final(builder)@.holds(*final(cursor)),
            final(builder)@.extends(old(builder)@),
            r is Ok && r->Ok_0 is Some ==> {
                &&& r->Ok_0->0@.env.wf()
                &&& r->Ok_0->0@.env.exprs_below(final(interner)@.len())
                &&& final(builder)@.holds(r->Ok_0->0@.cursor)
            },
            global_env.specs@.contains_key(func) && plain_sig_spec(old(interner)@, &global_env.specs@[func].fn_sig)
                ==> (CallOutcome {
                nodes: final(interner)@,
                tree: final(builder)@,
                cursor: *final(cursor),
                next: match r {
                    Ok(Some(p)) => Ok(Some(p@)),
                    Ok(None) => Ok(None),
                    Err(e) => Err(e),
                },
            }) == plain_call_spec(
                &global_env.specs@[func].fn_sig,
                old(interner)@,
                old(builder)@,
                *old(cursor),
                env@,
                source_info,
                args@,
                *destination,
                main,
            ),
            r is Ok && global_env.specs@.contains_key(func) ==> forall|k: int| #[trigger]
                call_owes_false_spec(&global_env.specs@[func].fn_sig, old(interner)@, env@, args@, k) ==> has_head(
                    final(builder)@,
                    old(cursor).node,
                    global_env.specs@[func].fn_sig.args@[k]->Refine_1,
                ),
    {
        if !global_env.has_fn_sig(func) {
            return Err(TyError::Malformed);
        }
        let fn_sig = global_env.lookup_fn_sig(func);
        assert(fn_sig.exprs_below(old(interner)@.len())) by {
            assert(global_env.specs@[func].fn_sig.exprs_below(old(interner)@.len()));
        }
        let ghost old_env = env@;
        let mut env = env;
        let actuals = Self::check_operands(interner, &mut env, args)?;
        proof {
            lemma_tree_below_later(builder@, old(interner)@.len(), interner@.len());
            lemma_sig_below_later(fn_sig, old(interner)@.len(), interner@.len());
        }
        let ghost n1 = interner@;
        let ghost plain = plain_sig_spec(old(interner)@, fn_sig);
        proof {
            if plain {
                assert forall|i: int| 0 <= i < fn_sig.args@.len() implies plain_ty_spec(
                    n1,
                    #[trigger] fn_sig.args@[i],
                ) by {
                    assert(plain_ty_spec(old(interner)@, fn_sig.args@[i]));
                    lemma_index_name_later(old(interner)@, n1, fn_sig.args@[i]);
                }
                lemma_plain_inference(n1, env@, actuals@, fn_sig);
            }
        }
        let mut subst = match Self::infer_from_fn_call(interner, &env, &actuals, fn_sig) {
            Some(subst) => subst,
            None => {
                return Err(TyError::Inference(source_info));
            },
        };
        Self::push_param_heads(interner, builder, cursor, &subst, &fn_sig.params);
        let ghost n2 = interner@;
        proof {
            lemma_bindings_below_later(subst@.exprs, n1.len(), n2.len());
            lemma_sig_below_later(fn_sig, n1.len(), n2.len());
            assert forall|i: int| 0 <= i < actuals@.len() implies (#[trigger] actuals@[i]).expr_below(
                n2.len(),
            ) by {
                assert(actuals@[i].expr_below(n1.len()));
            }
        }
        proof {
            assert forall|k: int|
                0 <= k < fn_sig.args@.len() && k < actuals@.len() && owes_false_spec(
                    n1,
                    #[trigger] fn_sig.args@[k],
                    actuals@[k],
                ) implies owes_false_spec(n2, fn_sig.args@[k], actuals@[k]) by {
                lemma_owes_false_later(n1, n2, fn_sig.args@[k], actuals@[k]);
            }
        }
        Self::check_args(interner, builder, cursor, &subst, &actuals, &fn_sig.args)?;
        let ghost n3 = interner@;
        let ghost t3 = builder@;
        proof {
            lemma_bindings_below_later(subst@.exprs, n2.len(), n3.len());
            lemma_sig_below_later(fn_sig, n2.len(), n3.len());
            lemma_env_below_later(env@, n1.len(), n3.len());
        }
        Self::check_requires(interner, builder, cursor, &env, &subst, &fn_sig.requires)?;
        let ghost n4 = interner@;
        proof {
            lemma_bindings_below_later(subst@.exprs, n3.len(), n4.len());
            lemma_sig_below_later(fn_sig, n3.len(), n4.len());
            lemma_env_below_later(env@, n3.len(), n4.len());
        }
        let ghost t4 = builder@;
        Self::apply_ensures(interner, builder, cursor, &mut env, &mut subst, &fn_sig.ensures)?;
        let ghost n5 = interner@;
        let ghost t5 = builder@;
        proof {
            lemma_sig_below_later(fn_sig, n4.len(), n5.len());
            assert(t4.extends(t3));
            assert(t5.extends(t4));
        }
        match destination {
            Some((p, bb)) => {
                let ret = subst.subst_ty(interner, fn_sig.ret);
                proof {
                    lemma_tree_below_later(builder@, n5.len(), interner@.len());
                    if plain {
                        crate::subst::law_subst_identity(n5, subst@, fn_sig.ret);
                    }
                }
                let ret = cursor.unpack(interner, builder, ret);
                proof {
                    lemma_env_below_later(env@, n5.len(), interner@.len());
                }
                let ghost env_mid = env@;
                let r = env.write_place(*p, ret);
                proof {
                    lemma_lookup_below(env_mid, *p, interner@.len());
                    if r is Ok {
                        lemma_set_slot_below(env_mid, env_mid.resolve(*p)->Ok_0, ret, interner@.len());
                    }
                }
                r?;
                proof {
                    assert(builder@.extends(t5));
                    assert forall|k: int| #[trigger]
                        call_owes_false_spec(fn_sig, old(interner)@, old_env, args@, k) implies has_head(
                        builder@,
                        old(cursor).node,
                        fn_sig.args@[k]->Refine_1,
                    ) by {
                        lemma_has_head_later(t3, builder@, old(cursor).node, fn_sig.args@[k]->Refine_1);
                    }
                }
                Ok(Some(Pending { env, cursor: *cursor, target: *bb, main }))
            },
            None => {
                proof {
                    assert forall|k: int| #[trigger]
                        call_owes_false_spec(fn_sig, old(interner)@, old_env, args@, k) implies has_head(
                        builder@,
                        old(cursor).node,
                        fn_sig.args@[k]->Refine_1,
                    ) by {
                        lemma_has_head_later(t3, builder@, old(cursor).node, fn_sig.args@[k]->Refine_1);
                    }
                }
                Ok(None)
            },
        }
    }
}

impl<'a> Checker<'a> {
    /// The types of the operands of a call, from left to right.
    pub fn check_operands(interner: &mut Interner, env: &mut Env, args: &Vec<Operand>) -> (r: TyResult<
        Vec<Ty>,
    >)
        requires
            old(interner).wf(),
            old(env).wf(),
            old(env)@.exprs_below(old(interner)@.len()),
        ensures
            (
                final(interner)@,
                final(env)@,
                match r {
                    Ok(tys) => Ok(tys@),
                    Err(e) => Err(e),
                },
            ) == check_operands_spec(old(interner)@, old(env)@, args@, 0),
            final(interner).wf(),
            arena_extends(final(interner)@, old(interner)@),
            final(env).wf(),
            final(env)@.exprs_below(final(interner)@.len()),
            r is Ok ==> types_below(r->Ok_0@, final(interner)@.len()),
    {
        let mut tys: Vec<Ty> = Vec::new();
        let mut i: usize = 0;
        while i < args.len()
            invariant
                i <= args.len(),
                interner.wf(),
                arena_extends(interner@, old(interner)@),
                env.wf(),
                env@.exprs_below(interner@.len()),
                types_below(tys@, interner@.len()),
                with_prefix(tys@, check_operands_spec(interner@, env@, args@, i as int))
                    == check_operands_spec(old(interner)@, old(env)@, args@, 0),
            decreases args.len() - i,
        {
            let ghost tys_before = tys@;
            match Self::check_operand(interner, env, &args[i]) {
                Ok(ty) => {
                    tys.push(ty);
                    proof {
                        let rest = check_operands_spec(interner@, env@, args@, i + 1);
                        match rest.2 {
                            Ok(more) => {
                                assert(tys_before + (seq![ty] + more) =~= tys@ + more);
                            },
                            Err(_) => {},
                        }
                        assert forall|k: int| 0 <= k < tys@.len() implies (#[trigger] tys@[k]).expr_below(
                            interner@.len(),
                        ) by {
                            if k < tys_before.len() {
                                assert(tys@[k] == tys_before[k]);
                            }
                        }
                    }
                },
                Err(e) => {
                    return Err(e);
                },
            }
            i = i + 1;
        }
        assert(tys@ + Seq::<Ty>::empty() =~= tys@);
        Ok(tys)
    }

    /// The name that a type pins its values to.
    pub fn index_name(interner: &Interner, ty: Ty) -> (r: Option<Name>)
        requires
            interner.wf(),
        ensures
            r == index_name_spec(interner@, ty),
    {
        match value_of(interner, ty) {
            Some((_, e)) => match interner.get(e) {
                ExprNode::Free(x) => Some(x),
                _ => None,
            },
            None => None,
        }
    }

    fn bind_index(interner: &Interner, subst: &mut Subst, formal: Ty, actual: Ty)
        requires
            interner.wf(),
            old(subst)@.exprs_below(interner@.len()),
        ensures
            final(subst)@ == bind_index(interner@, old(subst)@, formal, actual),
            final(subst)@.exprs_below(interner@.len()),
    {
        match (Self::index_name(interner, formal), value_of(interner, actual)) {
            (Some(x), Some((_, ea))) => {
                if subst.lookup_expr(x).is_none() {
                    subst.insert_expr(x, ea);
                }
            },
            _ => {},
        }
    }

    /// Solves for the substitution of a call.
    pub fn infer_from_fn_call(interner: &Interner, env: &Env, actuals: &Vec<Ty>, fn_sig: &FnSig) -> (r:
        Option<Subst>)
        requires
            interner.wf(),
            env.wf(),
            env@.exprs_below(interner@.len()),
            types_below(actuals@, interner@.len()),
        ensures
            match r {
                Some(s) => infer_from_fn_call_spec(interner@, env@, actuals@, fn_sig) == Some(s@)
                    && s@.exprs_below(interner@.len()),
                None => infer_from_fn_call_spec(interner@, env@, actuals@, fn_sig) is None,
            },
    {
        if actuals.len() != fn_sig.args.len() {
            return None;
        }
        let mut subst = Subst::new();
        let ghost empty = subst@;
        assert(empty == SubstModel { exprs: Map::empty(), regions: Map::empty() });
        let mut i: usize = 0;
        while i < fn_sig.args.len()
            invariant
                interner.wf(),
                i <= fn_sig.args.len(),
                actuals.len() == fn_sig.args.len(),
                empty == (SubstModel { exprs: Map::empty(), regions: Map::empty() }),
                types_below(actuals@, interner@.len()),
                subst@.exprs_below(interner@.len()),
                infer_args_spec(interner@, subst@, fn_sig.args@, actuals@, i as int) == infer_args_spec(
                    interner@,
                    empty,
                    fn_sig.args@,
                    actuals@,
                    0,
                ),
            decreases fn_sig.args.len() - i,
        {
            let formal = fn_sig.args[i];
            let actual = actuals[i];
            match formal {
                Ty::MutRef(l) => {
                    match actual {
                        Ty::MutRef(r) => {
                            match subst.lookup_region(l) {
                                Some(bound) => {
                                    if bound != r {
                                        assert(infer_arg(interner@, subst@, formal, actual) is None);
                                        return None;
                                    }
                                },
                                None => {
                                    subst.insert_region(l, r);
                                },
                            }
                        },
                        _ => {
                            assert(infer_arg(interner@, subst@, formal, actual) is None);
                            return None;
                        },
                    }
                },
                _ => {
                    Self::bind_index(interner, &mut subst, formal, actual);
                },
            }
            i = i + 1;
        }
        let ghost s1 = subst@;
        let mut j: usize = 0;
        while j < fn_sig.requires.len()
            invariant
                interner.wf(),
                j <= fn_sig.requires.len(),
                actuals.len() == fn_sig.args.len(),
                empty == (SubstModel { exprs: Map::empty(), regions: Map::empty() }),
                infer_args_spec(interner@, empty, fn_sig.args@, actuals@, 0) == Some(s1),
                env.wf(),
                env@.exprs_below(interner@.len()),
                subst@.exprs_below(interner@.len()),
                infer_requires_spec(interner@, env@, subst@, fn_sig.requires@, j as int)
                    == infer_requires_spec(interner@, env@, s1, fn_sig.requires@, 0),
            decreases fn_sig.requires.len() - j,
        {
            let (l, ty) = fn_sig.requires[j];
            match subst.lookup_region(l) {
                Some(r) => {
                    match env.lookup_region(r) {
                        Some(actual) => {
                            Self::bind_index(interner, &mut subst, ty, actual);
                        },
                        None => {
                            assert(infer_require(interner@, env@, subst@, l, ty) is None);
                            return None;
                        },
                    }
                },
                None => {
                    assert(infer_require(interner@, env@, subst@, l, ty) is None);
                    return None;
                },
            }
            j = j + 1;
        }
        let ghost s2 = subst@;
        let mut k: usize = 0;
        while k < fn_sig.params.len()
            invariant
                k <= fn_sig.params.len(),
                subst@ == s2,
                actuals.len() == fn_sig.args.len(),
                empty == (SubstModel { exprs: Map::empty(), regions: Map::empty() }),
                infer_args_spec(interner@, empty, fn_sig.args@, actuals@, 0) == Some(s1),
                infer_requires_spec(interner@, env@, s1, fn_sig.requires@, 0) == Some(s2),
                forall|m: int| 0 <= m < k ==> subst@.exprs.contains_key((#[trigger] fn_sig.params@[m]).name),
            decreases fn_sig.params.len() - k,
        {
            if subst.lookup_expr(fn_sig.params[k].name).is_none() {
                assert(!s2.exprs.contains_key(fn_sig.params@[k as int].name));
                return None;
            }
            k = k + 1;
        }
        Some(subst)
    }
}

} // verus!
