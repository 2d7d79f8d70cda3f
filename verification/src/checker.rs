//! The checker: one pass over the control-flow graph that turns typing
//! judgments into goals of the constraint tree.
//!
//! A pass follows jumps. A jump into a block with one predecessor checks
//! the block, which decides on the jumps that leave it. A jump into a join
//! point does not enter it: when shapes are inferred it merges the
//! incoming environment into the shape of the join point, when constraints
//! are emitted it proves the incoming environment against the template of
//! the join point. The join points themselves are entered afterwards, in
//! reverse postorder, each from its template.

use vstd::prelude::*;
use rustc_hash::FxHashMap;
use crate::call::{check_call_spec, pairs_below};
use crate::constraint::{subtyping_spec, ConstraintBuilder, Cursor, NodeKind, TreeModel};
use crate::env::{lemma_env_below_later, lemma_slot_below, unpack_env_spec, Env, EnvModel, Slot};
use crate::fxmap::{fx_contains_key, fx_get, fx_insert, fx_remove};
use crate::global_env::{lemma_genv_below_later, GlobalEnv};
use crate::inference::{template_spec, Shape, ShapeModel};
use crate::shape_laws::{law_first_arrival_is_no_other, law_merge_order_independent};
use crate::global_env::FnSig;
use crate::lowering::{lower_signature, lower_signature_spec, Lowered};
use crate::intern::{arena_extends, arena_wf, Interner};
use crate::ir::{BasicBlock, Body, Terminator, TerminatorKind, RETURN_PLACE, START_BLOCK};
use crate::result::{TyError, TyResult};
use crate::rules::{check_statements_spec, lemma_tree_below_later, ready};
use crate::switch::{check_switch_int_spec, pending_ready, switchable_spec};
use crate::ty::{ExprNode, FnId, RegionId, Ty};

verus! {

/// What a pass over the body is for.
#[derive(Clone, Copy, Debug, PartialEq, Eq, Structural)]
pub enum Mode {
    /// Find the shape of every join point.
    Infer,
    /// Emit the constraints.
    Check,
}

/// A jump that was decided on and not yet followed.
pub struct Pending {
    pub env: Env,
    pub cursor: Cursor,
    pub target: BasicBlock,
    /// Whether the jump continues the path that the pass itself is on, and
    /// is not an arm of a branch.
    pub main: bool,
}

/// A pending jump as contracts see it.
pub struct PendingModel {
    pub env: EnvModel,
    pub cursor: Cursor,
    pub target: BasicBlock,
    pub main: bool,
}

impl View for Pending {
    type V = PendingModel;

    open spec fn view(&self) -> PendingModel {
        PendingModel { env: self.env@, cursor: self.cursor, target: self.target, main: self.main }
    }
}

/// The jumps of a vector, as contracts see them.
pub open spec fn pending_model(s: Seq<Pending>) -> Seq<PendingModel> {
    Seq::new(s.len(), |i: int| s[i]@)
}

/// The templates of a map, as contracts see them.
pub open spec fn envs_model(m: Map<BasicBlock, Env>) -> Map<BasicBlock, EnvModel> {
    Map::new(|bb: BasicBlock| m.contains_key(bb), |bb: BasicBlock| m[bb]@)
}

/// The shapes of a map, as contracts see them.
pub open spec fn shapes_model(m: Map<BasicBlock, Shape>) -> Map<BasicBlock, ShapeModel> {
    Map::new(|bb: BasicBlock| m.contains_key(bb), |bb: BasicBlock| m[bb]@)
}

/// How many blocks were not visited.
pub open spec fn unvisited(visited: Seq<bool>) -> nat
    decreases visited.len(),
{
    if visited.len() == 0 {
        0
    } else {
        unvisited(visited.drop_last()) + if visited.last() {
            0nat
        } else {
            1nat
        }
    }
}

/// The state of a pass as contracts see it.
pub struct State {
    pub nodes: Seq<ExprNode>,
    pub tree: TreeModel,
    pub mode: Mode,
    pub func: FnId,
    pub dominates_join_point: Seq<bool>,
    pub visited: Seq<bool>,
    /// The template of each join point that has published one.
    pub bb_envs: Map<BasicBlock, EnvModel>,
    /// The shape of each join point that has one.
    pub bb_env_shapes: Map<BasicBlock, ShapeModel>,
    pub ret_ty: Ty,
    /// What each region must hold when the function returns.
    pub ensures: Seq<(RegionId, Ty)>,
    /// The jumps to follow, the next one last.
    pub pending: Seq<PendingModel>,
    /// The cursor of the path that the pass itself is on.
    pub cursor: Cursor,
}

/// Every template is well formed and free of expressions that the arena
/// lacks.
pub open spec fn envs_ready(nodes: Seq<ExprNode>, envs: Map<BasicBlock, EnvModel>) -> bool {
    forall|bb: BasicBlock|
        envs.contains_key(bb) ==> (#[trigger] envs[bb]).wf() && envs[bb].exprs_below(nodes.len())
}

pub open spec fn shapes_ready(shapes: Map<BasicBlock, ShapeModel>) -> bool {
    forall|bb: BasicBlock| shapes.contains_key(bb) ==> (#[trigger] shapes[bb]).wf()
}

impl State {
    /// What the state holds fits an arena, a tree and a table of
    /// signatures.
    pub open spec fn frame_ready(self, nodes: Seq<ExprNode>, tree: TreeModel, genv: &GlobalEnv) -> bool {
        &&& tree.holds(self.cursor)
        &&& pending_ready(nodes, tree, self.pending)
        &&& envs_ready(nodes, self.bb_envs)
        &&& shapes_ready(self.bb_env_shapes)
        &&& self.ret_ty.expr_below(nodes.len())
        &&& pairs_below(self.ensures, nodes.len())
        &&& genv.exprs_below(nodes.len())
    }

    /// What every step of a pass starts from and keeps.
    pub open spec fn inv(self, body: &Body, genv: &GlobalEnv) -> bool {
        &&& arena_wf(self.nodes)
        &&& self.tree.wf()
        &&& self.tree.exprs_below(self.nodes.len())
        &&& self.visited.len() == body.basic_blocks@.len()
        &&& self.dominates_join_point.len() == body.basic_blocks@.len()
        &&& self.frame_ready(self.nodes, self.tree, genv)
    }

    /// The state with one more jump to follow, which is the next.
    pub open spec fn push_pending(self, item: PendingModel) -> State {
        State { pending: self.pending.push(item), ..self }
    }

    /// The state with more jumps to follow, the last of which is the
    /// next.
    pub open spec fn push_all(self, items: Seq<PendingModel>) -> State {
        State { pending: self.pending + items, ..self }
    }
}

/// What a jump into a join point proves when constraints are emitted: for
/// the slots of the incoming environment from `i` on, that what the slot
/// holds is a subtype of what the template holds for it, wherever the
/// template holds a refinement. Where the template holds none, or has no
/// such slot, nothing is to prove: the template is the weaker.
pub open spec fn check_join_spec(
    nodes: Seq<ExprNode>,
    tree: TreeModel,
    c: Cursor,
    env: EnvModel,
    template: EnvModel,
    shape: ShapeModel,
    i: int,
) -> (Seq<ExprNode>, TreeModel, TyResult<()>)
    decreases env.num_slots() - i,
{
    if i < 0 || i >= env.num_slots() {
        (nodes, tree, Ok(()))
    } else {
        let s = env.slot_at(i);
        match shape.find_slot(s) {
            Some(t) => if template.has_slot(t) && template.slot_ty(t) is Refine {
                let (n1, t1, r) = subtyping_spec(nodes, tree, c, env.slot_ty(s), template.slot_ty(t));
                match r {
                    Ok(_) => check_join_spec(n1, t1, c, env, template, shape, i + 1),
                    Err(e) => (n1, t1, Err(e)),
                }
            } else {
                check_join_spec(nodes, tree, c, env, template, shape, i + 1)
            },
            None => check_join_spec(nodes, tree, c, env, template, shape, i + 1),
        }
    }
}

/// Publishing the template of a join point: once only, from its shape.
pub open spec fn publish_spec(st: State, bb: BasicBlock) -> (State, TyResult<()>) {
    if st.bb_envs.contains_key(bb) {
        (st, Ok(()))
    } else if st.bb_env_shapes.contains_key(bb) {
        let (n1, t1, env) = template_spec(st.nodes, st.tree, st.func, st.bb_env_shapes[bb]);
        (State { nodes: n1, tree: t1, bb_envs: st.bb_envs.insert(bb, env), ..st }, Ok(()))
    } else {
        (st, Err(TyError::Malformed))
    }
}

/// A return: the return place must hold a subtype of the return type, and
/// every region that the signature ensures must hold a subtype of what it
/// ensures.
pub open spec fn check_ensures_spec(
    nodes: Seq<ExprNode>,
    tree: TreeModel,
    c: Cursor,
    env: EnvModel,
    ensured: Seq<(RegionId, Ty)>,
    i: int,
) -> (Seq<ExprNode>, TreeModel, TyResult<()>)
    decreases ensured.len() - i,
{
    if i < 0 || i >= ensured.len() {
        (nodes, tree, Ok(()))
    } else {
        match env.lookup_region(ensured[i].0) {
            Some(actual) => {
                let (n1, t1, r) = subtyping_spec(nodes, tree, c, actual, ensured[i].1);
                match r {
                    Ok(_) => check_ensures_spec(n1, t1, c, env, ensured, i + 1),
                    Err(e) => (n1, t1, Err(e)),
                }
            },
            None => (nodes, tree, Err(TyError::Malformed)),
        }
    }
}

pub open spec fn check_return_spec(
    nodes: Seq<ExprNode>,
    tree: TreeModel,
    c: Cursor,
    env: EnvModel,
    ret_ty: Ty,
    ensured: Seq<(RegionId, Ty)>,
) -> (Seq<ExprNode>, TreeModel, TyResult<()>) {
    if RETURN_PLACE < env.variables.len() {
        let (n1, t1, r) = subtyping_spec(nodes, tree, c, env.slot_ty(Slot::Local(RETURN_PLACE)), ret_ty);
        match r {
            Ok(_) => check_ensures_spec(n1, t1, c, env, ensured, 0),
            Err(e) => (n1, t1, Err(e)),
        }
    } else {
        (nodes, tree, Err(TyError::Malformed))
    }
}

/// The rule of a terminator.
#[verifier::opaque]
pub open spec fn check_terminator_spec(
    genv: &GlobalEnv,
    st: State,
    env: EnvModel,
    c: Cursor,
    terminator: &Terminator,
    main: bool,
) -> (State, TyResult<()>) {
    match terminator.kind {
        TerminatorKind::Return => {
            let (n1, t1, r) = check_return_spec(st.nodes, st.tree, c, env, st.ret_ty, st.ensures);
            (State { nodes: n1, tree: t1, ..st }, r)
        },
        TerminatorKind::Goto { target } => (
            st.push_pending(PendingModel { env, cursor: c, target, main }),
            Ok(()),
        ),
        TerminatorKind::SwitchInt { discr, branches, otherwise } => if switchable_spec(st.nodes, env, discr) {
            let o = check_switch_int_spec(st.nodes, st.tree, c, env, discr, branches@, otherwise);
            match o.arms {
                Ok(arms) => (State { nodes: o.nodes, tree: o.tree, ..st }.push_all(arms), Ok(())),
                Err(e) => (State { nodes: o.nodes, tree: o.tree, ..st }, Err(e)),
            }
        } else {
            (st, Err(TyError::Malformed))
        },
        TerminatorKind::Call { func, substs, args, destination } => {
            let o = check_call_spec(
                genv,
                st.nodes,
                st.tree,
                c,
                env,
                terminator.source_info,
                func,
                args@,
                destination,
                main,
            );
            let st1 = State {
                nodes: o.nodes,
                tree: o.tree,
                cursor: if main {
                    o.cursor
                } else {
                    st.cursor
                },
                ..st
            };
            match o.next {
                Ok(Some(item)) => (st1.push_pending(item), Ok(())),
                Ok(None) => (st1, Ok(())),
                Err(e) => (st1, Err(e)),
            }
        },
        TerminatorKind::Drop { place, target } => (
            st.push_pending(PendingModel { env: env.move_place(place).0, cursor: c, target, main }),
            Ok(()),
        ),
    }
}

/// Checking a block: it is marked as visited; if it dominates a join
/// point it opens a scope; its statements are checked in order, then its
/// terminator. A block that was visited is not checked again: to reach it
/// twice is a fault of the body.
#[verifier::opaque]
pub open spec fn check_basic_block_spec(
    body: &Body,
    genv: &GlobalEnv,
    st: State,
    env: EnvModel,
    c: Cursor,
    bb: BasicBlock,
    main: bool,
) -> (State, TyResult<()>) {
    if bb >= body.basic_blocks@.len() || bb >= st.visited.len() || bb >= st.dominates_join_point.len()
        || st.visited[bb as int] {
        (st, Err(TyError::Malformed))
    } else {
        let (tree1, c1) = if st.dominates_join_point[bb as int] {
            (st.tree.push(c, NodeKind::Scope), st.tree.pushed())
        } else {
            (st.tree, c)
        };
        let data = body.basic_blocks@[bb as int];
        let o = check_statements_spec(st.nodes, tree1, c1, env, data.statements@, 0);
        let st1 = State {
            nodes: o.nodes,
            tree: o.tree,
            visited: st.visited.update(bb as int, true),
            cursor: if main {
                c1
            } else {
                st.cursor
            },
            ..st
        };
        match o.result {
            Err(e) => (st1, Err(e)),
            Ok(_) => match data.terminator {
                Some(t) => check_terminator_spec(genv, st1, o.env, c1, &t, main),
                None => (st1, Ok(())),
            },
        }
    }
}

/// Following a jump.
#[verifier::opaque]
pub open spec fn check_goto_spec(body: &Body, genv: &GlobalEnv, st: State, item: PendingModel) -> (
    State,
    TyResult<()>,
) {
    if item.target >= body.basic_blocks@.len() {
        (st, Err(TyError::Malformed))
    } else if body.is_join_point_spec(item.target) {
        match st.mode {
            Mode::Infer => (
                State {
                    bb_env_shapes: st.bb_env_shapes.insert(
                        item.target,
                        if st.bb_env_shapes.contains_key(item.target) {
                            st.bb_env_shapes[item.target].merge_with(item.env)
                        } else {
                            ShapeModel::from_env(item.env)
                        },
                    ),
                    ..st
                },
                Ok(()),
            ),
            Mode::Check => {
                let (st1, r) = publish_spec(st, item.target);
                match r {
                    Err(e) => (st1, Err(e)),
                    Ok(_) => if st1.bb_env_shapes.contains_key(item.target) {
                        let (n2, t2, r2) = check_join_spec(
                            st1.nodes,
                            st1.tree,
                            item.cursor,
                            item.env,
                            st1.bb_envs[item.target],
                            st1.bb_env_shapes[item.target],
                            0,
                        );
                        (State { nodes: n2, tree: t2, ..st1 }, r2)
                    } else {
                        (st1, Err(TyError::Malformed))
                    },
                }
            },
        }
    } else {
        check_basic_block_spec(body, genv, st, item.env, item.cursor, item.target, item.main)
    }
}

/// While shapes are inferred, the order in which two jumps reach a join
/// point makes no difference: the state is the same either way, the
/// first arrival included.
pub proof fn law_arrivals_commute(body: &Body, genv: &GlobalEnv, st: State, first: PendingModel, second: PendingModel)
    requires
        st.mode is Infer,
        first.target == second.target,
        first.target < body.basic_blocks@.len(),
        body.is_join_point_spec(first.target),
    ensures
        check_goto_spec(body, genv, check_goto_spec(body, genv, st, first).0, second) == check_goto_spec(
            body,
            genv,
            check_goto_spec(body, genv, st, second).0,
            first,
        ),
{
    reveal(check_goto_spec);
    let bb = first.target;
    let a = check_goto_spec(body, genv, check_goto_spec(body, genv, st, first).0, second).0;
    let b = check_goto_spec(body, genv, check_goto_spec(body, genv, st, second).0, first).0;
    if st.bb_env_shapes.contains_key(bb) {
        law_merge_order_independent(
            st.bb_env_shapes[bb],
            first.env,
            second.env,
            st.nodes,
            st.tree,
            st.func,
        );
    } else {
        law_first_arrival_is_no_other(first.env, second.env);
    }
    assert(a.bb_env_shapes =~= b.bb_env_shapes);
}

/// While constraints are emitted, a template that is published stays: a
/// jump to its join point only adds goals, and no template changes.
pub proof fn law_published_template_stays(body: &Body, genv: &GlobalEnv, st: State, item: PendingModel)
    requires
        st.mode is Check,
        item.target < body.basic_blocks@.len(),
        body.is_join_point_spec(item.target),
        st.bb_envs.contains_key(item.target),
    ensures
        check_goto_spec(body, genv, st, item).0.bb_envs == st.bb_envs,
        check_goto_spec(body, genv, st, item).0.bb_env_shapes == st.bb_env_shapes,
        check_goto_spec(body, genv, st, item).0.visited == st.visited,
        check_goto_spec(body, genv, st, item).0.pending == st.pending,
{
    reveal(check_goto_spec);
}

/// Marking a block as visited leaves one block less to visit.
pub proof fn lemma_unvisited_update(visited: Seq<bool>, k: int)
    requires
        0 <= k < visited.len(),
        !visited[k],
    ensures
        unvisited(visited.update(k, true)) + 1 == unvisited(visited),
    decreases visited.len(),
{
    if k == visited.len() - 1 {
        assert(visited.update(k, true).drop_last() =~= visited.drop_last());
    } else {
        assert(visited.update(k, true).drop_last() =~= visited.drop_last().update(k, true));
        lemma_unvisited_update(visited.drop_last(), k);
    }
}

/// Following a jump brings a pass nearer to its end: either a block more
/// is visited, or no jump is added to those to follow.
pub proof fn lemma_goto_progress(body: &Body, genv: &GlobalEnv, st: State, item: PendingModel)
    requires
        st.visited.len() == body.basic_blocks@.len(),
    ensures
        check_goto_spec(body, genv, st, item).0.visited.len() == st.visited.len(),
        unvisited(check_goto_spec(body, genv, st, item).0.visited) < unvisited(st.visited) || (
        check_goto_spec(body, genv, st, item).0.visited == st.visited && check_goto_spec(
            body,
            genv,
            st,
            item,
        ).0.pending == st.pending),
{
    reveal(check_goto_spec);
    reveal(check_basic_block_spec);
    reveal(check_terminator_spec);
    if item.target < body.basic_blocks@.len() && !body.is_join_point_spec(item.target) {
        let bb = item.target;
        if bb < st.dominates_join_point.len() && !st.visited[bb as int] {
            lemma_unvisited_update(st.visited, bb as int);
        }
    }
}

/// Following the jumps of a pass until none is left, or one fails.
pub open spec fn drain_spec(body: &Body, genv: &GlobalEnv, st: State) -> (State, TyResult<()>)
    decreases unvisited(st.visited), st.pending.len(),
    when st.visited.len() == body.basic_blocks@.len()
    via drain_decreases
{
    if st.pending.len() == 0 {
        (st, Ok(()))
    } else {
        let (st1, r) = check_goto_spec(
            body,
            genv,
            State { pending: st.pending.drop_last(), ..st },
            st.pending.last(),
        );
        match r {
            Ok(_) => drain_spec(body, genv, st1),
            Err(e) => (st1, Err(e)),
        }
    }
}

#[via_fn]
proof fn drain_decreases(body: &Body, genv: &GlobalEnv, st: State) {
    if st.pending.len() != 0 {
        lemma_goto_progress(
            body,
            genv,
            State { pending: st.pending.drop_last(), ..st },
            st.pending.last(),
        );
    }
}

/// Entering a join point that no jump has entered: from its template, with
/// the values of the template named, on the path of the pass itself. A
/// block that was visited is left alone.
#[verifier::opaque]
pub open spec fn enter_spec(body: &Body, genv: &GlobalEnv, st: State, bb: BasicBlock) -> (State, TyResult<()>) {
    if bb >= body.basic_blocks@.len() {
        (st, Err(TyError::Malformed))
    } else if st.visited[bb as int] {
        (st, Ok(()))
    } else {
        let (st1, r) = publish_spec(st, bb);
        match r {
            Err(e) => (st1, Err(e)),
            Ok(_) => {
                let (n2, t2, c2, env2) = unpack_env_spec(st1.nodes, st1.tree, st1.cursor, st1.bb_envs[bb]);
                let (st3, r3) = check_basic_block_spec(
                    body,
                    genv,
                    State { nodes: n2, tree: t2, cursor: c2, ..st1 },
                    env2,
                    c2,
                    bb,
                    true,
                );
                match r3 {
                    Err(e) => (st3, Err(e)),
                    Ok(_) => drain_spec(body, genv, st3),
                }
            },
        }
    }
}

/// Entering the blocks of the reverse postorder from its `i`-th on.
pub open spec fn run_from_spec(body: &Body, genv: &GlobalEnv, st: State, i: int) -> (State, TyResult<()>)
    decreases body.reverse_postorder@.len() - i,
{
    if i < 0 || i >= body.reverse_postorder@.len() {
        (st, Ok(()))
    } else {
        let (st1, r) = enter_spec(body, genv, st, body.reverse_postorder@[i]);
        match r {
            Ok(_) => run_from_spec(body, genv, st1, i + 1),
            Err(e) => (st1, Err(e)),
        }
    }
}

/// A pass: the jump into the start block is followed, and every jump
/// that follows from it; then the blocks that are left are entered in
/// reverse postorder.
pub open spec fn run_spec(body: &Body, genv: &GlobalEnv, st: State, env: EnvModel, c: Cursor) -> (
    State,
    TyResult<()>,
) {
    let st0 = State { cursor: c, ..st }.push_pending(
        PendingModel { env, cursor: c, target: START_BLOCK, main: true },
    );
    let (st1, r) = drain_spec(body, genv, st0);
    match r {
        Ok(_) => run_from_spec(body, genv, st1, 0),
        Err(e) => (st1, Err(e)),
    }
}

/// Whether block `d` is the immediate dominator of a join point.
pub open spec fn dominates_join_point_spec(body: &Body, d: int) -> bool {
    exists|bb: int|
        0 <= bb < body.basic_blocks@.len() && bb < body.immediate_dominators@.len()
            && body.is_join_point_spec(bb as usize) && #[trigger] body.immediate_dominators@[bb] == d
}

/// The state in which a pass starts: the tree is as the signature left it,
/// no block is visited, no template is published, no jump is pending.
pub open spec fn initial_state(
    body: &Body,
    nodes: Seq<ExprNode>,
    tree: TreeModel,
    mode: Mode,
    func: FnId,
    shapes: Map<BasicBlock, ShapeModel>,
    ret_ty: Ty,
    ensured: Seq<(RegionId, Ty)>,
) -> State {
    State {
        nodes,
        tree,
        mode,
        func,
        dominates_join_point: Seq::new(
            body.basic_blocks@.len(),
            |d: int| dominates_join_point_spec(body, d),
        ),
        visited: Seq::new(body.basic_blocks@.len(), |bb: int| false),
        bb_envs: Map::empty(),
        bb_env_shapes: shapes,
        ret_ty,
        ensures: ensured,
        pending: Seq::empty(),
        cursor: Cursor { node: 0 },
    }
}

/// One pass over a body under a signature: the arena afterwards, and the
/// tree and the shapes of the join points if the pass got through.
pub open spec fn pass_spec(
    genv: &GlobalEnv,
    body: &Body,
    sig: &FnSig,
    func: FnId,
    nodes: Seq<ExprNode>,
    mode: Mode,
    shapes: Map<BasicBlock, ShapeModel>,
) -> (Seq<ExprNode>, TyResult<(TreeModel, Map<BasicBlock, ShapeModel>)>) {
    let (n1, t1, r1) = lower_signature_spec(nodes, TreeModel::initial(), Cursor { node: 0 }, body, sig, func);
    match r1 {
        Err(e) => (n1, Err(e)),
        Ok(l) => {
            let st = initial_state(body, n1, t1, mode, func, shapes, l.ret_ty, l.ensures);
            let (st1, r) = run_spec(body, genv, st, l.env, l.cursor);
            match r {
                Ok(_) => (st1.nodes, Ok((st1.tree, st1.bb_env_shapes))),
                Err(e) => (st1.nodes, Err(e)),
            }
        },
    }
}

/// The shapes of the join points of a body: what a pass that infers
/// leaves, started without shapes.
pub open spec fn infer_spec(genv: &GlobalEnv, body: &Body, sig: &FnSig, func: FnId, nodes: Seq<ExprNode>) -> (
    Seq<ExprNode>,
    TyResult<Map<BasicBlock, ShapeModel>>,
) {
    let (n1, r1) = pass_spec(genv, body, sig, func, nodes, Mode::Infer, Map::empty());
    (
        n1,
        match r1 {
            Ok((_, shapes)) => Ok(shapes),
            Err(e) => Err(e),
        },
    )
}

/// Checking a body against a signature: the shapes of the join points are
/// inferred in a first pass, the constraints are emitted in a second. The
/// result is the constraint tree, or the first failure.
pub open spec fn check_spec(genv: &GlobalEnv, body: &Body, sig: &FnSig, func: FnId, nodes: Seq<ExprNode>) -> (
    Seq<ExprNode>,
    TyResult<TreeModel>,
) {
    let (n1, r1) = infer_spec(genv, body, sig, func, nodes);
    match r1 {
        Err(e) => (n1, Err(e)),
        Ok(shapes) => {
            let (n2, r2) = pass_spec(genv, body, sig, func, n1, Mode::Check, shapes);
            (
                n2,
                match r2 {
                    Ok((tree, _)) => Ok(tree),
                    Err(e) => Err(e),
                },
            )
        },
    }
}

pub struct Checker<'a> {
    body: &'a Body,
    global_env: &'a GlobalEnv,
    interner: Interner,
    builder: ConstraintBuilder,
    mode: Mode,
    func_id: FnId,
    /// Whether the block immediately dominates a join point.
    dominates_join_point: Vec<bool>,
    visited: Vec<bool>,
    bb_envs: FxHashMap<BasicBlock, Env>,
    bb_env_shapes: FxHashMap<BasicBlock, Shape>,
    ret_ty: Ty,
    ensures: Vec<(RegionId, Ty)>,
    pending: Vec<Pending>,
    cursor: Cursor,
}

impl<'a> View for Checker<'a> {
    type V = State;

    closed spec fn view(&self) -> State {
        State {
            nodes: self.interner@,
            tree: self.builder@,
            mode: self.mode,
            func: self.func_id,
            dominates_join_point: self.dominates_join_point@,
            visited: self.visited@,
            bb_envs: envs_model(self.bb_envs@),
            bb_env_shapes: shapes_model(self.bb_env_shapes@),
            ret_ty: self.ret_ty,
            ensures: self.ensures@,
            pending: pending_model(self.pending@),
            cursor: self.cursor,
        }
    }
}


/// What a state holds fits every later arena and tree.
pub proof fn lemma_frame_later(
    st: State,
    genv: &GlobalEnv,
    n1: Seq<ExprNode>,
    t1: TreeModel,
    n2: Seq<ExprNode>,
    t2: TreeModel,
)
    requires
        st.frame_ready(n1, t1, genv),
        n1.len() <= n2.len(),
        t2.extends(t1),
    ensures
        st.frame_ready(n2, t2, genv),
{
    lemma_genv_below_later(genv, n1.len(), n2.len());
    assert forall|i: int| 0 <= i < st.pending.len() implies {
        &&& (#[trigger] st.pending[i]).env.wf()
        &&& st.pending[i].env.exprs_below(n2.len())
        &&& t2.holds(st.pending[i].cursor)
    } by {
        lemma_env_below_later(st.pending[i].env, n1.len(), n2.len());
    }
    assert forall|bb: BasicBlock| st.bb_envs.contains_key(bb) implies (#[trigger] st.bb_envs[bb]).wf()
        && st.bb_envs[bb].exprs_below(n2.len()) by {
        lemma_env_below_later(st.bb_envs[bb], n1.len(), n2.len());
    }
    assert forall|i: int| 0 <= i < st.ensures.len() implies (#[trigger] st.ensures[i]).1.expr_below(
        n2.len(),
    ) by {
        assert(st.ensures[i].1.expr_below(n1.len()));
    }
}

impl<'a> Checker<'a> {
    /// The body that is checked.
    pub closed spec fn body(&self) -> &Body {
        self.body
    }

    /// The signatures of the program.
    pub closed spec fn genv(&self) -> &GlobalEnv {
        self.global_env
    }

    pub open spec fn inv(&self) -> bool {
        self@.inv(self.body(), self.genv())
    }

    /// Proves an incoming environment against the template of a join
    /// point.
    fn check_join(
        interner: &mut Interner,
        builder: &mut ConstraintBuilder,
        cursor: &Cursor,
        env: &Env,
        template: &Env,
        shape: &Shape,
    ) -> (r: TyResult<()>)
        requires
            ready(old(interner)@, old(builder)@, env@, *cursor),
            template.wf(),
            template@.exprs_below(old(interner)@.len()),
            shape.wf(),
        ensures
            (final(interner)@, final(builder)@, r) == check_join_spec(
                old(interner)@,
                old(builder)@,
                *cursor,
                env@,
                template@,
                shape@,
                0,
            ),
            arena_wf(final(interner)@),
            arena_extends(final(interner)@, old(interner)@),
            final(builder).wf(),
            final(builder)@.exprs_below(final(interner)@.len()),
            final(builder)@.extends(old(builder)@),
    {
        let slots = env.iter();
        let mut i: usize = 0;
        while i < slots.len()
            invariant
                i <= slots.len(),
                slots@ == env@.slots(),
                ready(interner@, builder@, env@, *cursor),
                arena_extends(interner@, old(interner)@),
                builder@.extends(old(builder)@),
                template.wf(),
                template@.exprs_below(interner@.len()),
                shape.wf(),
                check_join_spec(interner@, builder@, *cursor, env@, template@, shape@, i as int)
                    == check_join_spec(
                    old(interner)@,
                    old(builder)@,
                    *cursor,
                    env@,
                    template@,
                    shape@,
                    0,
                ),
            decreases slots.len() - i,
        {
            let ghost before = interner@;
            let (s, ty1) = slots[i];
            assert(s == env@.slot_at(i as int) && ty1 == env@.slot_ty(s));
            match shape.find_slot(s) {
                Some(t) => {
                    if template.has_slot(t) {
                        let ty2 = template.slot_ty(t);
                        match ty2 {
                            Ty::Refine(_, _) => {
                                proof {
                                    lemma_slot_below(env@, s, interner@.len());
                                    lemma_slot_below(template@, t, interner@.len());
                                }
                                cursor.subtyping(interner, builder, ty1, ty2)?;
                                proof {
                                    lemma_env_below_later(env@, before.len(), interner@.len());
                                    lemma_env_below_later(template@, before.len(), interner@.len());
                                }
                            },
                            _ => {},
                        }
                    }
                },
                None => {},
            }
            i = i + 1;
        }
        Ok(())
    }

    /// Proves what a return owes.
    fn check_return(
        interner: &mut Interner,
        builder: &mut ConstraintBuilder,
        cursor: &Cursor,
        env: &Env,
        ret_ty: Ty,
        ensured: &Vec<(RegionId, Ty)>,
    ) -> (r: TyResult<()>)
        requires
            ready(old(interner)@, old(builder)@, env@, *cursor),
            ret_ty.expr_below(old(interner)@.len()),
            pairs_below(ensured@, old(interner)@.len()),
        ensures
            (final(interner)@, final(builder)@, r) == check_return_spec(
                old(interner)@,
                old(builder)@,
                *cursor,
                env@,
                ret_ty,
                ensured@,
            ),
            arena_wf(final(interner)@),
            arena_extends(final(interner)@, old(interner)@),
            final(builder).wf(),
            final(builder)@.exprs_below(final(interner)@.len()),
            final(builder)@.extends(old(builder)@),
    {
        let ret_place_ty = match env.lookup_local(RETURN_PLACE) {
            Some(ty) => ty,
            None => {
                return Err(TyError::Malformed);
            },
        };
        proof {
            lemma_slot_below(env@, Slot::Local(RETURN_PLACE), interner@.len());
        }
        cursor.subtyping(interner, builder, ret_place_ty, ret_ty)?;
        proof {
            lemma_env_below_later(env@, old(interner)@.len(), interner@.len());
        }
        let ghost n1 = interner@;
        let ghost t1 = builder@;
        let mut i: usize = 0;
        while i < ensured.len()
            invariant
                i <= ensured.len(),
                ready(interner@, builder@, env@, *cursor),
                arena_extends(interner@, old(interner)@),
                builder@.extends(old(builder)@),
                pairs_below(ensured@, old(interner)@.len()),
                RETURN_PLACE < env@.variables.len(),
                ret_place_ty == env@.slot_ty(Slot::Local(RETURN_PLACE)),
                subtyping_spec(old(interner)@, old(builder)@, *cursor, ret_place_ty, ret_ty) == (
                    n1,
                    t1,
                    Ok::<(), TyError>(()),
                ),
                check_ensures_spec(interner@, builder@, *cursor, env@, ensured@, i as int)
                    == check_ensures_spec(n1, t1, *cursor, env@, ensured@, 0),
            decreases ensured.len() - i,
        {
            let ghost before = interner@;
            let (region, ensured_ty) = ensured[i];
            assert(ensured@[i as int].1.expr_below(old(interner)@.len()));
            let actual_ty = match env.lookup_region(region) {
                Some(ty) => ty,
                None => {
                    return Err(TyError::Malformed);
                },
            };
            proof {
                lemma_slot_below(env@, Slot::Region(region), interner@.len());
            }
            cursor.subtyping(interner, builder, actual_ty, ensured_ty)?;
            proof {
                lemma_env_below_later(env@, before.len(), interner@.len());
            }
            i = i + 1;
        }
        Ok(())
    }
}


impl<'a> Checker<'a> {
    /// Publishes the template of a join point, unless it has one.
    pub fn publish(&mut self, bb: BasicBlock) -> (r: TyResult<()>)
        requires
            old(self).inv(),
        ensures
            (final(self)@, r) == publish_spec(old(self)@, bb),
            final(self).inv(),
            final(self).body() == old(self).body(),
            final(self).genv() == old(self).genv(),
            r is Ok ==> final(self)@.bb_envs.contains_key(bb),
            arena_extends(final(self)@.nodes, old(self)@.nodes),
            final(self)@.tree.extends(old(self)@.tree),
    {
        if fx_contains_key(&self.bb_envs, bb) {
            return Ok(());
        }
        proof {
            if self.bb_env_shapes@.contains_key(bb) {
                assert(self@.bb_env_shapes.contains_key(bb));
                assert(self@.bb_env_shapes[bb].wf());
            }
        }
        let env = match fx_get(&self.bb_env_shapes, bb) {
            Some(shape) => shape.template(&mut self.interner, &mut self.builder, self.func_id),
            None => {
                return Err(TyError::Malformed);
            },
        };
        let _ = fx_insert(&mut self.bb_envs, bb, env);
        proof {
            let st0 = old(self)@;
            lemma_tree_below_later(st0.tree, st0.nodes.len(), self@.nodes.len());
            assert(self@.tree.exprs_below(self@.nodes.len())) by {
                assert forall|i: int| 0 <= i < self@.tree.nodes.len() implies (
                #[trigger] self@.tree.nodes[i]).kind.expr_below(self@.nodes.len()) by {
                    assert(self@.tree.nodes[i] == st0.tree.nodes[i]);
                }
            }
            lemma_frame_later(st0, self.genv(), st0.nodes, st0.tree, self@.nodes, self@.tree);
            assert(self@.bb_envs =~= st0.bb_envs.insert(bb, env@));
            assert(self@.bb_env_shapes =~= st0.bb_env_shapes);
            assert(self@.pending =~= st0.pending);
        }
        Ok(())
    }

    /// The rule of a terminator. The jumps that it decides on are put
    /// with the jumps to follow.
    fn check_terminator(&mut self, env: Env, cursor: Cursor, terminator: &Terminator, main: bool) -> (r:
        TyResult<()>)
        requires
            old(self).inv(),
            env.wf(),
            env@.exprs_below(old(self)@.nodes.len()),
            old(self)@.tree.holds(cursor),
        ensures
            (final(self)@, r) == check_terminator_spec(old(self).genv(), old(self)@, env@, cursor, terminator, main),
            r is Ok ==> final(self).inv(),
            arena_wf(final(self)@.nodes),
            arena_extends(final(self)@.nodes, old(self)@.nodes),
            final(self).body() == old(self).body(),
            final(self).genv() == old(self).genv(),
    {
        reveal(check_terminator_spec);
        let ghost st0 = self@;
        match &terminator.kind {
            TerminatorKind::Return => {
                let r = Self::check_return(
                    &mut self.interner,
                    &mut self.builder,
                    &cursor,
                    &env,
                    self.ret_ty,
                    &self.ensures,
                );
                proof {
                    lemma_frame_later(st0, self.genv(), st0.nodes, st0.tree, self@.nodes, self@.tree);
                    assert(self@.pending =~= st0.pending);
                    assert(self@.bb_envs =~= st0.bb_envs);
                    assert(self@.bb_env_shapes =~= st0.bb_env_shapes);
                }
                r
            },
            TerminatorKind::Goto { target } => {
                self.push_pending(Pending { env, cursor, target: *target, main });
                Ok(())
            },
            TerminatorKind::SwitchInt { discr, branches, otherwise } => {
                if !Self::switchable(&self.interner, &env, discr) {
                    return Err(TyError::Malformed);
                }
                let arms = Self::check_switch_int(
                    &mut self.interner,
                    &mut self.builder,
                    &cursor,
                    env,
                    discr,
                    branches,
                    *otherwise,
                );
                proof {
                    lemma_frame_later(st0, self.genv(), st0.nodes, st0.tree, self@.nodes, self@.tree);
                    assert(self@.pending =~= st0.pending);
                    assert(self@.bb_envs =~= st0.bb_envs);
                    assert(self@.bb_env_shapes =~= st0.bb_env_shapes);
                }
                match arms {
                    Ok(arms) => {
                        self.push_all(arms);
                        Ok(())
                    },
                    Err(e) => Err(e),
                }
            },
            TerminatorKind::Call { func, substs, args, destination } => {
                let mut c = cursor;
                let next = Self::check_call(
                    self.global_env,
                    &mut self.interner,
                    &mut self.builder,
                    &mut c,
                    env,
                    terminator.source_info,
                    *func,
                    substs,
                    args,
                    destination,
                    main,
                );
                if main {
                    self.cursor = c;
                }
                proof {
                    lemma_frame_later(st0, self.genv(), st0.nodes, st0.tree, self@.nodes, self@.tree);
                    assert(self@.pending =~= st0.pending);
                    assert(self@.bb_envs =~= st0.bb_envs);
                    assert(self@.bb_env_shapes =~= st0.bb_env_shapes);
                }
                match next {
                    Ok(Some(item)) => {
                        self.push_pending(item);
                        Ok(())
                    },
                    Ok(None) => Ok(()),
                    Err(e) => Err(e),
                }
            },
            TerminatorKind::Drop { place, target } => {
                let mut env = env;
                let ghost env0 = env@;
                let moved = env.move_place(*place);
                proof {
                    crate::rules::lemma_lookup_below(env0, *place, self@.nodes.len());
                    if moved is Ok {
                        crate::env::lemma_set_slot_below(
                            env0,
                            env0.resolve(*place)->Ok_0,
                            Ty::Uninit,
                            self@.nodes.len(),
                        );
                    }
                }
                self.push_pending(Pending { env, cursor, target: *target, main });
                Ok(())
            },
        }
    }

    /// Puts a jump with the jumps to follow; it is the next.
    fn push_pending(&mut self, item: Pending)
        requires
            old(self)@.frame_ready(old(self)@.nodes, old(self)@.tree, old(self).genv()),
            item@.env.wf(),
            item@.env.exprs_below(old(self)@.nodes.len()),
            old(self)@.tree.holds(item@.cursor),
        ensures
            final(self)@ == old(self)@.push_pending(item@),
            final(self)@.frame_ready(final(self)@.nodes, final(self)@.tree, final(self).genv()),
            final(self).body() == old(self).body(),
            final(self).genv() == old(self).genv(),
    {
        self.pending.push(item);
        proof {
            let st0 = old(self)@;
            assert(self@.pending =~= st0.pending.push(item@));
            assert(self@.bb_envs =~= st0.bb_envs);
            assert(self@.bb_env_shapes =~= st0.bb_env_shapes);
            assert forall|i: int| 0 <= i < self@.pending.len() implies {
                &&& (#[trigger] self@.pending[i]).env.wf()
                &&& self@.pending[i].env.exprs_below(self@.nodes.len())
                &&& self@.tree.holds(self@.pending[i].cursor)
            } by {
                if i < st0.pending.len() {
                    assert(self@.pending[i] == st0.pending[i]);
                }
            }
        }
    }

    /// Puts jumps with the jumps to follow; the last of them is the next.
    fn push_all(&mut self, items: Vec<Pending>)
        requires
            old(self)@.frame_ready(old(self)@.nodes, old(self)@.tree, old(self).genv()),
            pending_ready(old(self)@.nodes, old(self)@.tree, pending_model(items@)),
        ensures
            final(self)@ == old(self)@.push_all(pending_model(items@)),
            final(self)@.frame_ready(final(self)@.nodes, final(self)@.tree, final(self).genv()),
            final(self).body() == old(self).body(),
            final(self).genv() == old(self).genv(),
    {
        let mut items = items;
        let ghost all = pending_model(items@);
        let ghost st0 = self@;
        self.pending.append(&mut items);
        proof {
            assert(self@.pending =~= st0.pending + all);
            assert(self@.bb_envs =~= st0.bb_envs);
            assert(self@.bb_env_shapes =~= st0.bb_env_shapes);
            assert forall|i: int| 0 <= i < self@.pending.len() implies {
                &&& (#[trigger] self@.pending[i]).env.wf()
                &&& self@.pending[i].env.exprs_below(self@.nodes.len())
                &&& self@.tree.holds(self@.pending[i].cursor)
            } by {
                if i < st0.pending.len() {
                    assert(self@.pending[i] == st0.pending[i]);
                } else {
                    assert(self@.pending[i] == all[i - st0.pending.len()]);
                }
            }
        }
    }
}


impl<'a> Checker<'a> {
    /// Checks a block.
    fn check_basic_block(&mut self, env: Env, cursor: Cursor, bb: BasicBlock, main: bool) -> (r: TyResult<
        (),
    >)
        requires
            old(self).inv(),
            env.wf(),
            env@.exprs_below(old(self)@.nodes.len()),
            old(self)@.tree.holds(cursor),
        ensures
            (final(self)@, r) == check_basic_block_spec(
                old(self).body(),
                old(self).genv(),
                old(self)@,
                env@,
                cursor,
                bb,
                main,
            ),
            r is Ok ==> final(self).inv(),
            arena_wf(final(self)@.nodes),
            arena_extends(final(self)@.nodes, old(self)@.nodes),
            final(self).body() == old(self).body(),
            final(self).genv() == old(self).genv(),
    {
        reveal(check_basic_block_spec);
        let ghost st0 = self@;
        let body = self.body;
        if bb >= body.basic_blocks.len() {
            return Err(TyError::Malformed);
        }
        if self.visited[bb] {
            return Err(TyError::Malformed);
        }
        self.visited.set(bb, true);
        let mut cursor = cursor;
        let mut env = env;
        if self.dominates_join_point[bb] {
            cursor.push_scope(&mut self.builder);
        }
        if main {
            self.cursor = cursor;
        }
        let data = &body.basic_blocks[bb];
        let ghost st1 = self@;
        proof {
            lemma_tree_below_later(st0.tree, st0.nodes.len(), st0.nodes.len());
            lemma_frame_later(st0, self.genv(), st0.nodes, st0.tree, st1.nodes, st1.tree);
            assert(st1.pending =~= st0.pending);
            assert(st1.bb_envs =~= st0.bb_envs);
            assert(st1.bb_env_shapes =~= st0.bb_env_shapes);
        }
        let r = Self::check_statements(
            &mut self.interner,
            &mut self.builder,
            &cursor,
            &mut env,
            &data.statements,
        );
        proof {
            assert(self@.pending =~= st1.pending);
            assert(self@.bb_envs =~= st1.bb_envs);
            assert(self@.bb_env_shapes =~= st1.bb_env_shapes);
        }
        match r {
            Ok(_) => {},
            Err(e) => {
                return Err(e);
            },
        }
        proof {
            lemma_frame_later(
                State { cursor: st0.cursor, ..st1 },
                self.genv(),
                st0.nodes,
                st0.tree,
                self@.nodes,
                self@.tree,
            );
        }
        match &data.terminator {
            Some(terminator) => self.check_terminator(env, cursor, terminator, main),
            None => Ok(()),
        }
    }

    /// Merges an incoming environment into the shape of a join point.
    fn merge_at_join(&mut self, env: &Env, target: BasicBlock)
        requires
            old(self).inv(),
            env.wf(),
        ensures
            final(self)@ == (State {
                bb_env_shapes: old(self)@.bb_env_shapes.insert(
                    target,
                    if old(self)@.bb_env_shapes.contains_key(target) {
                        old(self)@.bb_env_shapes[target].merge_with(env@)
                    } else {
                        ShapeModel::from_env(env@)
                    },
                ),
                ..old(self)@
            }),
            final(self).inv(),
            final(self).body() == old(self).body(),
            final(self).genv() == old(self).genv(),
    {
        let ghost st0 = self@;
        proof {
            if self.bb_env_shapes@.contains_key(target) {
                assert(st0.bb_env_shapes.contains_key(target));
                assert(st0.bb_env_shapes[target].wf());
            }
        }
        let shape = match fx_remove(&mut self.bb_env_shapes, target) {
            Some(shape) => {
                let mut shape = shape;
                shape.merge_with(env);
                shape
            },
            None => Shape::from_env(env),
        };
        let ghost merged = shape@;
        let _ = fx_insert(&mut self.bb_env_shapes, target, shape);
        proof {
            assert(self@.bb_env_shapes =~= st0.bb_env_shapes.insert(target, merged));
            assert(self@.bb_envs =~= st0.bb_envs);
            assert(self@.pending =~= st0.pending);
            assert forall|bb: BasicBlock| self@.bb_env_shapes.contains_key(bb) implies (
            #[trigger] self@.bb_env_shapes[bb]).wf() by {
                if bb != target {
                    assert(st0.bb_env_shapes.contains_key(bb));
                }
            }
        }
    }

    /// Proves an incoming environment against the published template of a
    /// join point.
    fn prove_at_join(&mut self, env: &Env, cursor: Cursor, target: BasicBlock) -> (r: TyResult<()>)
        requires
            old(self).inv(),
            env.wf(),
            env@.exprs_below(old(self)@.nodes.len()),
            old(self)@.tree.holds(cursor),
            old(self)@.bb_envs.contains_key(target),
        ensures
            (final(self)@, r) == (if old(self)@.bb_env_shapes.contains_key(target) {
                (
                    State {
                        nodes: check_join_spec(
                            old(self)@.nodes,
                            old(self)@.tree,
                            cursor,
                            env@,
                            old(self)@.bb_envs[target],
                            old(self)@.bb_env_shapes[target],
                            0,
                        ).0,
                        tree: check_join_spec(
                            old(self)@.nodes,
                            old(self)@.tree,
                            cursor,
                            env@,
                            old(self)@.bb_envs[target],
                            old(self)@.bb_env_shapes[target],
                            0,
                        ).1,
                        ..old(self)@
                    },
                    check_join_spec(
                        old(self)@.nodes,
                        old(self)@.tree,
                        cursor,
                        env@,
                        old(self)@.bb_envs[target],
                        old(self)@.bb_env_shapes[target],
                        0,
                    ).2,
                )
            } else {
                (old(self)@, Err(TyError::Malformed))
            }),
            final(self).inv(),
            arena_extends(final(self)@.nodes, old(self)@.nodes),
            final(self).body() == old(self).body(),
            final(self).genv() == old(self).genv(),
    {
        let ghost st1 = self@;
        let template = match fx_get(&self.bb_envs, target) {
            Some(template) => template,
            None => {
                return Err(TyError::Malformed);
            },
        };
        let shape = match fx_get(&self.bb_env_shapes, target) {
            Some(shape) => shape,
            None => {
                return Err(TyError::Malformed);
            },
        };
        proof {
            assert(st1.bb_envs[target].wf());
            assert(st1.bb_env_shapes.contains_key(target));
            assert(st1.bb_env_shapes[target].wf());
        }
        let r = Self::check_join(&mut self.interner, &mut self.builder, &cursor, env, template, shape);
        proof {
            lemma_frame_later(st1, self.genv(), st1.nodes, st1.tree, self@.nodes, self@.tree);
            assert(self@.pending =~= st1.pending);
            assert(self@.bb_envs =~= st1.bb_envs);
            assert(self@.bb_env_shapes =~= st1.bb_env_shapes);
        }
        r
    }

    /// Follows a jump.
    pub fn check_goto(&mut self, item: Pending) -> (r: TyResult<()>)
        requires
            old(self).inv(),
            item@.env.wf(),
            item@.env.exprs_below(old(self)@.nodes.len()),
            old(self)@.tree.holds(item@.cursor),
        ensures
            (final(self)@, r) == check_goto_spec(old(self).body(), old(self).genv(), old(self)@, item@),
            r is Ok ==> final(self).inv(),
            arena_wf(final(self)@.nodes),
            arena_extends(final(self)@.nodes, old(self)@.nodes),
            final(self).body() == old(self).body(),
            final(self).genv() == old(self).genv(),
    {
        reveal(check_goto_spec);
        let ghost st0 = self@;
        let Pending { env, cursor, target, main } = item;
        let body = self.body;
        if target >= body.basic_blocks.len() {
            return Err(TyError::Malformed);
        }
        if body.is_join_point(target) {
            match self.mode {
                Mode::Infer => {
                    self.merge_at_join(&env, target);
                    Ok(())
                },
                Mode::Check => {
                    self.publish(target)?;
                    proof {
                        lemma_env_below_later(env@, st0.nodes.len(), self@.nodes.len());
                    }
                    self.prove_at_join(&env, cursor, target)
                },
            }
        } else {
            self.check_basic_block(env, cursor, target, main)
        }
    }

    /// Follows the jumps until none is left.
    fn drain(&mut self) -> (r: TyResult<()>)
        requires
            old(self).inv(),
        ensures
            (final(self)@, r) == drain_spec(old(self).body(), old(self).genv(), old(self)@),
            r is Ok ==> final(self).inv(),
            arena_wf(final(self)@.nodes),
            arena_extends(final(self)@.nodes, old(self)@.nodes),
            final(self).body() == old(self).body(),
            final(self).genv() == old(self).genv(),
    {
        while self.pending.len() > 0
            invariant
                self.inv(),
                arena_extends(self@.nodes, old(self)@.nodes),
                self.body() == old(self).body(),
                self.genv() == old(self).genv(),
                drain_spec(self.body(), self.genv(), self@) == drain_spec(
                    old(self).body(),
                    old(self).genv(),
                    old(self)@,
                ),
            decreases unvisited(self@.visited), self@.pending.len(),
        {
            let ghost before = self@;
            let item = match self.pending.pop() {
                Some(item) => item,
                None => {
                    return Ok(());
                },
            };
            let ghost popped = self@;
            proof {
                assert(popped.pending =~= before.pending.drop_last());
                assert(popped.bb_envs =~= before.bb_envs);
                assert(popped.bb_env_shapes =~= before.bb_env_shapes);
                assert(popped == State { pending: before.pending.drop_last(), ..before });
                assert(item@ == before.pending.last());
                assert forall|i: int| 0 <= i < popped.pending.len() implies {
                    &&& (#[trigger] popped.pending[i]).env.wf()
                    &&& popped.pending[i].env.exprs_below(popped.nodes.len())
                    &&& popped.tree.holds(popped.pending[i].cursor)
                } by {
                    assert(popped.pending[i] == before.pending[i]);
                }
                lemma_goto_progress(self.body(), self.genv(), popped, item@);
            }
            match self.check_goto(item) {
                Ok(_) => {},
                Err(e) => {
                    return Err(e);
                },
            }
        }
        Ok(())
    }
}


impl<'a> Checker<'a> {
    /// A checker that has visited nothing.
    pub fn new(
        global_env: &'a GlobalEnv,
        body: &'a Body,
        interner: Interner,
        builder: ConstraintBuilder,
        mode: Mode,
        func_id: FnId,
        bb_env_shapes: FxHashMap<BasicBlock, Shape>,
        ret_ty: Ty,
        ensured: Vec<(RegionId, Ty)>,
    ) -> (ck: Checker<'a>)
        requires
            interner.wf(),
            builder.wf(),
            builder@.exprs_below(interner@.len()),
            shapes_ready(shapes_model(bb_env_shapes@)),
            ret_ty.expr_below(interner@.len()),
            pairs_below(ensured@, interner@.len()),
            global_env.exprs_below(interner@.len()),
        ensures
            ck@ == initial_state(
                body,
                interner@,
                builder@,
                mode,
                func_id,
                shapes_model(bb_env_shapes@),
                ret_ty,
                ensured@,
            ),
            ck.inv(),
            ck.body() == body,
            ck.genv() == global_env,
    {
        let n = body.basic_blocks.len();
        let mut dominates_join_point: Vec<bool> = Vec::new();
        let mut visited: Vec<bool> = Vec::new();
        let mut k: usize = 0;
        while k < n
            invariant
                k <= n,
                dominates_join_point@ == Seq::new(k as nat, |d: int| false),
                visited@ == Seq::new(k as nat, |d: int| false),
            decreases n - k,
        {
            dominates_join_point.push(false);
            visited.push(false);
            k = k + 1;
            assert(dominates_join_point@ =~= Seq::new(k as nat, |d: int| false));
            assert(visited@ =~= Seq::new(k as nat, |d: int| false));
        }
        let mut bb: usize = 0;
        while bb < n
            invariant
                bb <= n,
                n == body.basic_blocks@.len(),
                dominates_join_point@.len() == n,
                forall|d: int|
                    0 <= d < n ==> (#[trigger] dominates_join_point@[d] <==> exists|b: int|
                        0 <= b < bb && b < body.immediate_dominators@.len() && body.is_join_point_spec(
                            b as usize,
                        ) && #[trigger] body.immediate_dominators@[b] == d),
            decreases n - bb,
        {
            if bb < body.immediate_dominators.len() && body.is_join_point(bb) {
                let d = body.immediate_dominators[bb];
                if d < n {
                    let ghost before = dominates_join_point@;
                    dominates_join_point.set(d, true);
                    assert forall|e: int| 0 <= e < n implies (#[trigger] dominates_join_point@[e]
                        <==> exists|b: int|
                        0 <= b < bb + 1 && b < body.immediate_dominators@.len()
                            && body.is_join_point_spec(b as usize)
                            && #[trigger] body.immediate_dominators@[b] == e) by {
                        if e == d {
                            assert(body.immediate_dominators@[bb as int] == d);
                        } else {
                            assert(dominates_join_point@[e] == before[e]);
                        }
                    }
                }
            }
            bb = bb + 1;
        }
        let cursor = builder.as_cursor();
        let ck = Checker {
            body,
            global_env,
            interner,
            builder,
            mode,
            func_id,
            dominates_join_point,
            visited,
            bb_envs: crate::fxmap::fx_new(),
            bb_env_shapes,
            ret_ty,
            ensures: ensured,
            pending: Vec::new(),
            cursor,
        };
        proof {
            let st = initial_state(
                body,
                interner@,
                builder@,
                mode,
                func_id,
                shapes_model(bb_env_shapes@),
                ret_ty,
                ensured@,
            );
            assert(ck@.dominates_join_point =~= st.dominates_join_point);
            assert(ck@.visited =~= st.visited);
            assert(ck@.bb_envs =~= st.bb_envs);
            assert(ck@.pending =~= st.pending);
        }
        ck
    }

    /// What a pass leaves behind: the arena, the constraint tree and the
    /// shapes of the join points.
    pub fn into_parts(self) -> (r: (Interner, ConstraintBuilder, FxHashMap<BasicBlock, Shape>))
        ensures
            r.0@ == self@.nodes,
            r.1@ == self@.tree,
            shapes_model(r.2@) == self@.bb_env_shapes,
    {
        (self.interner, self.builder, self.bb_env_shapes)
    }

    /// Enters a block of the reverse postorder, unless it was visited.
    fn enter(&mut self, bb: BasicBlock) -> (r: TyResult<()>)
        requires
            old(self).inv(),
        ensures
            (final(self)@, r) == enter_spec(old(self).body(), old(self).genv(), old(self)@, bb),
            r is Ok ==> final(self).inv(),
            arena_wf(final(self)@.nodes),
            arena_extends(final(self)@.nodes, old(self)@.nodes),
            final(self).body() == old(self).body(),
            final(self).genv() == old(self).genv(),
    {
        reveal(enter_spec);
        if bb >= self.body.basic_blocks.len() {
            return Err(TyError::Malformed);
        }
        if self.visited[bb] {
            return Ok(());
        }
        self.publish(bb)?;
        let ghost st1 = self@;
        let mut env = match fx_get(&self.bb_envs, bb) {
            Some(template) => template.clone(),
            None => {
                return Err(TyError::Malformed);
            },
        };
        proof {
            assert(st1.bb_envs[bb].wf());
        }
        let mut cursor = self.cursor;
        env.unpack(&mut self.interner, &mut self.builder, &mut cursor);
        self.cursor = cursor;
        proof {
            lemma_frame_later(st1, self.genv(), st1.nodes, st1.tree, self@.nodes, self@.tree);
            assert(self@.pending =~= st1.pending);
            assert(self@.bb_envs =~= st1.bb_envs);
            assert(self@.bb_env_shapes =~= st1.bb_env_shapes);
        }
        self.check_basic_block(env, cursor, bb, true)?;
        self.drain()
    }

    /// Runs a pass from the environment and the cursor that the signature
    /// left.
    pub fn run(&mut self, env: Env, cursor: Cursor) -> (r: TyResult<()>)
        requires
            old(self).inv(),
            env.wf(),
            env@.exprs_below(old(self)@.nodes.len()),
            old(self)@.tree.holds(cursor),
        ensures
            (final(self)@, r) == run_spec(old(self).body(), old(self).genv(), old(self)@, env@, cursor),
            r is Ok ==> final(self).inv(),
            arena_wf(final(self)@.nodes),
            arena_extends(final(self)@.nodes, old(self)@.nodes),
            final(self).body() == old(self).body(),
            final(self).genv() == old(self).genv(),
    {
        let ghost st0 = self@;
        self.cursor = cursor;
        proof {
            assert(self@.pending =~= st0.pending);
            assert(self@.bb_envs =~= st0.bb_envs);
            assert(self@.bb_env_shapes =~= st0.bb_env_shapes);
        }
        self.push_pending(Pending { env, cursor, target: START_BLOCK, main: true });
        let ghost start = self@;
        self.drain()?;
        let ghost st1 = self@;
        let body = self.body;
        let mut i: usize = 0;
        while i < body.reverse_postorder.len()
            invariant
                i <= body.reverse_postorder.len(),
                body == self.body(),
                self.inv(),
                arena_extends(self@.nodes, old(self)@.nodes),
                self.body() == old(self).body(),
                self.genv() == old(self).genv(),
                start == (State { cursor, ..old(self)@ }).push_pending(
                    PendingModel { env: env@, cursor, target: START_BLOCK, main: true },
                ),
                drain_spec(self.body(), self.genv(), start) == (st1, Ok::<(), TyError>(())),
                run_from_spec(self.body(), self.genv(), self@, i as int) == run_from_spec(
                    self.body(),
                    self.genv(),
                    st1,
                    0,
                ),
            decreases body.reverse_postorder.len() - i,
        {
            match self.enter(body.reverse_postorder[i]) {
                Ok(_) => {},
                Err(e) => {
                    return Err(e);
                },
            }
            i = i + 1;
        }
        Ok(())
    }
}


impl<'a> Checker<'a> {
    /// Runs one pass over a body.
    fn pass(
        global_env: &'a GlobalEnv,
        body: &'a Body,
        fn_sig: &FnSig,
        func_id: FnId,
        interner: Interner,
        mode: Mode,
        shapes: FxHashMap<BasicBlock, Shape>,
    ) -> (r: (Interner, TyResult<(ConstraintBuilder, FxHashMap<BasicBlock, Shape>)>))
        requires
            interner.wf(),
            global_env.exprs_below(interner@.len()),
            fn_sig.exprs_below(interner@.len()),
            shapes_ready(shapes_model(shapes@)),
        ensures
            (
                r.0@,
                match r.1 {
                    Ok(p) => Ok((p.0@, shapes_model(p.1@))),
                    Err(e) => Err(e),
                },
            ) == pass_spec(global_env, body, fn_sig, func_id, interner@, mode, shapes_model(shapes@)),
            r.0.wf(),
            arena_extends(r.0@, interner@),
            r.1 is Ok ==> {
                &&& r.1->Ok_0.0.wf()
                &&& r.1->Ok_0.0@.exprs_below(r.0@.len())
                &&& shapes_ready(shapes_model(r.1->Ok_0.1@))
            },
    {
        let mut interner = interner;
        let ghost n0 = interner@;
        let mut builder = ConstraintBuilder::new();
        let cursor = builder.as_cursor();
        let lowered = match lower_signature(&mut interner, &mut builder, cursor, body, fn_sig, func_id) {
            Ok(lowered) => lowered,
            Err(e) => {
                return (interner, Err(e));
            },
        };
        let Lowered { env, cursor, ret_ty, ensures: ensured } = lowered;
        proof {
            lemma_genv_below_later(global_env, n0.len(), interner@.len());
        }
        let mut ck = Checker::new(global_env, body, interner, builder, mode, func_id, shapes, ret_ty, ensured);
        let r = ck.run(env, cursor);
        let (interner, builder, shapes) = ck.into_parts();
        match r {
            Ok(_) => (interner, Ok((builder, shapes))),
            Err(e) => (interner, Err(e)),
        }
    }

    /// Infers the shape of every join point of a body.
    pub fn infer(
        global_env: &'a GlobalEnv,
        body: &'a Body,
        fn_sig: &FnSig,
        func_id: FnId,
        interner: Interner,
    ) -> (r: (Interner, TyResult<FxHashMap<BasicBlock, Shape>>))
        requires
            interner.wf(),
            global_env.exprs_below(interner@.len()),
            fn_sig.exprs_below(interner@.len()),
        ensures
            (
                r.0@,
                match r.1 {
                    Ok(shapes) => Ok(shapes_model(shapes@)),
                    Err(e) => Err(e),
                },
            ) == infer_spec(global_env, body, fn_sig, func_id, interner@),
            r.0.wf(),
            arena_extends(r.0@, interner@),
            r.1 is Ok ==> shapes_ready(shapes_model(r.1->Ok_0@)),
    {
        let empty: FxHashMap<BasicBlock, Shape> = crate::fxmap::fx_new();
        assert(shapes_model(empty@) =~= Map::empty());
        let (interner, r) = Self::pass(global_env, body, fn_sig, func_id, interner, Mode::Infer, empty);
        match r {
            Ok((_, shapes)) => (interner, Ok(shapes)),
            Err(e) => (interner, Err(e)),
        }
    }

    /// Checks a body against its signature and returns the constraints
    /// that the body is correct under. The arena comes back with the
    /// expressions of the constraints in it.
    pub fn check(
        global_env: &'a GlobalEnv,
        body: &'a Body,
        fn_sig: &FnSig,
        func_id: FnId,
        interner: Interner,
    ) -> (r: (Interner, TyResult<ConstraintBuilder>))
        requires
            interner.wf(),
            global_env.exprs_below(interner@.len()),
            fn_sig.exprs_below(interner@.len()),
        ensures
            (
                r.0@,
                match r.1 {
                    Ok(constraint) => Ok(constraint@),
                    Err(e) => Err(e),
                },
            ) == check_spec(global_env, body, fn_sig, func_id, interner@),
            r.0.wf(),
            arena_extends(r.0@, interner@),
            r.1 is Ok ==> r.1->Ok_0.wf() && r.1->Ok_0@.exprs_below(r.0@.len()),
    {
        let ghost n0 = interner@;
        let (interner, shapes) = Self::infer(global_env, body, fn_sig, func_id, interner);
        let shapes = match shapes {
            Ok(shapes) => shapes,
            Err(e) => {
                return (interner, Err(e));
            },
        };
        proof {
            lemma_genv_below_later(global_env, n0.len(), interner@.len());
            crate::global_env::lemma_sig_below_later(fn_sig, n0.len(), interner@.len());
        }
        let (interner, r) = Self::pass(global_env, body, fn_sig, func_id, interner, Mode::Check, shapes);
        match r {
            Ok((constraint, _)) => (interner, Ok(constraint)),
            Err(e) => (interner, Err(e)),
        }
    }
}

} // verus!
