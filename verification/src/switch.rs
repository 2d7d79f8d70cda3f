//! The rule of a branch on the value of a discriminant.

use vstd::prelude::*;
use crate::checker::{pending_model, Checker, Pending, PendingModel};
use crate::constraint::{value_of, value_of_spec, ConstraintBuilder, Cursor, NodeKind, TreeModel};
use crate::env::{lemma_env_below_later, lemma_set_slot_below, Env, EnvModel};
use crate::intern::{arena_extends, intern_spec, Interner};
use crate::ir::{BasicBlock, Operand};
use crate::result::{TyError, TyResult};
use crate::rules::{check_operand_spec, lemma_tree_below_later, ready};
use crate::semantics::{guard_meaning, holds, lemma_guard_holds, lemma_otherwise_holds, none_holds, Valuation};
use crate::ty::{BaseTy, BinOp, Constant, ExprId, ExprNode, Ty, UnOp};

verus! {

/// The test that the discriminant has the value `bits`: the discriminant
/// itself or its negation for a boolean, its equality with the literal for
/// an integer.
pub open spec fn guard_spec(nodes: Seq<ExprNode>, bty: BaseTy, e: ExprId, bits: u128) -> (Seq<ExprNode>, ExprId) {
    match bty {
        BaseTy::Bool => if bits != 0 {
            (nodes, e)
        } else {
            intern_spec(nodes, ExprNode::UnaryOp(UnOp::Not, e))
        },
        _ => {
            let (n1, k) = intern_spec(nodes, ExprNode::Constant(Constant::from_bits_spec(bty, bits)));
            intern_spec(n1, ExprNode::BinaryOp(BinOp::Eq, e, k))
        },
    }
}

/// What the first `n` branches add: for each, its test as a guard under
/// the cursor, and a jump to its target under that guard with the
/// environment of the branch point.
pub open spec fn switch_arms_spec(
    nodes: Seq<ExprNode>,
    tree: TreeModel,
    c: Cursor,
    env: EnvModel,
    bty: BaseTy,
    e: ExprId,
    branches: Seq<(u128, BasicBlock)>,
    n: int,
) -> (Seq<ExprNode>, TreeModel, Seq<ExprId>, Seq<PendingModel>)
    decreases n,
{
    if n <= 0 || n > branches.len() {
        (nodes, tree, Seq::empty(), Seq::empty())
    } else {
        let (n1, t1, guards, arms) = switch_arms_spec(nodes, tree, c, env, bty, e, branches, n - 1);
        let (n2, g) = guard_spec(n1, bty, e, branches[n - 1].0);
        (
            n2,
            t1.push(c, NodeKind::Guard(g)),
            guards.push(g),
            arms.push(PendingModel { env, cursor: t1.pushed(), target: branches[n - 1].1, main: false }),
        )
    }
}

/// The test that none of the first `n` guards holds: the conjunction of
/// their negations, or nothing where there is no guard.
pub open spec fn otherwise_spec(nodes: Seq<ExprNode>, guards: Seq<ExprId>, n: int) -> (
    Seq<ExprNode>,
    Option<ExprId>,
)
    decreases n,
{
    if n <= 0 || n > guards.len() {
        (nodes, None)
    } else {
        let (n1, acc) = otherwise_spec(nodes, guards, n - 1);
        let (n2, ng) = intern_spec(n1, ExprNode::UnaryOp(UnOp::Not, guards[n - 1]));
        match acc {
            None => (n2, Some(ng)),
            Some(a) => {
                let (n3, conj) = intern_spec(n2, ExprNode::BinaryOp(BinOp::And, a, ng));
                (n3, Some(conj))
            },
        }
    }
}

/// What a branch leaves behind.
pub struct SwitchOutcome {
    pub nodes: Seq<ExprNode>,
    pub tree: TreeModel,
    /// The jumps to follow, the next one last: the arm of `otherwise`
    /// first, then the arms of the branches from the last to the first.
    pub arms: TyResult<Seq<PendingModel>>,
}

/// A type over which a branch can be taken: that of a boolean or of an
/// integer, which pins its value down.
pub open spec fn ty_switchable_spec(nodes: Seq<ExprNode>, ty: Ty) -> bool {
    match value_of_spec(nodes, ty) {
        Some((bty, _)) => bty != BaseTy::Unit,
        None => false,
    }
}

/// An operand over which a branch can be taken: a literal, or a place
/// that, where it can be read, holds a value of a type over which a
/// branch can be taken.
pub open spec fn switchable_spec(nodes: Seq<ExprNode>, env: EnvModel, discr: Operand) -> bool {
    match discr {
        Operand::Constant(_) => true,
        Operand::Copy(p) => env.lookup_place(p) is Ok ==> ty_switchable_spec(nodes, env.lookup_place(p)->Ok_0),
        Operand::Move(p) => env.lookup_place(p) is Ok ==> ty_switchable_spec(nodes, env.lookup_place(p)->Ok_0),
    }
}

/// The rule of a branch over a discriminant over which a branch can be
/// taken. Each arm is explored under its own guard, from a
/// cursor of its own, with a copy of the environment of its own: neither
/// a guard nor what an arm does to locals or regions reaches another arm.
pub open spec fn check_switch_int_spec(
    nodes: Seq<ExprNode>,
    tree: TreeModel,
    c: Cursor,
    env: EnvModel,
    discr: Operand,
    branches: Seq<(u128, BasicBlock)>,
    otherwise: BasicBlock,
) -> SwitchOutcome {
    let (n1, env1, r) = check_operand_spec(nodes, env, discr);
    match r {
        Err(e) => SwitchOutcome { nodes: n1, tree, arms: Err(e) },
        Ok(ty) => {
            let (bty, e) = value_of_spec(n1, ty)->0;
            let (n2, t2, guards, arms) = switch_arms_spec(n1, tree, c, env1, bty, e, branches, branches.len() as int);
            let (n3, ow) = otherwise_spec(n2, guards, guards.len() as int);
            let (t3, c_ow) = match ow {
                Some(g) => (t2.push(c, NodeKind::Guard(g)), t2.pushed()),
                None => (t2, c),
            };
            SwitchOutcome {
                nodes: n3,
                tree: t3,
                arms: Ok(
                    seq![PendingModel { env: env1, cursor: c_ow, target: otherwise, main: false }] + arms.reverse(),
                ),
            }
        },
    }
}

/// The first `n` branches give one arm each, and each arm has the
/// environment of the branch point.
pub proof fn lemma_arms_of_branches(
    nodes: Seq<ExprNode>,
    tree: TreeModel,
    c: Cursor,
    env: EnvModel,
    bty: BaseTy,
    e: ExprId,
    branches: Seq<(u128, BasicBlock)>,
    n: int,
)
    requires
        0 <= n <= branches.len(),
    ensures
        switch_arms_spec(nodes, tree, c, env, bty, e, branches, n).3.len() == n,
        forall|i: int|
            0 <= i < n ==> (#[trigger] switch_arms_spec(nodes, tree, c, env, bty, e, branches, n).3[i]).env == env
                && switch_arms_spec(nodes, tree, c, env, bty, e, branches, n).3[i].target == branches[i].1,
    decreases n,
{
    if n > 0 {
        lemma_arms_of_branches(nodes, tree, c, env, bty, e, branches, n - 1);
    }
}

/// What one arm of a branch does reaches no other arm. Every arm, that
/// of `otherwise` included, starts from the environment that the
/// discriminant left, locals and regions alike: an arm is explored on a
/// copy, so neither a binding of a local nor what a region holds is
/// carried from one arm into another.
pub proof fn law_arms_start_alike(
    nodes: Seq<ExprNode>,
    tree: TreeModel,
    c: Cursor,
    env: EnvModel,
    discr: Operand,
    branches: Seq<(u128, BasicBlock)>,
    otherwise: BasicBlock,
    i: int,
)
    requires
        check_switch_int_spec(nodes, tree, c, env, discr, branches, otherwise).arms is Ok,
        0 <= i <= branches.len(),
    ensures
        ({
            let arms = check_switch_int_spec(nodes, tree, c, env, discr, branches, otherwise).arms->Ok_0;
            &&& arms.len() == branches.len() + 1
            &&& arms[i].env == check_operand_spec(nodes, env, discr).1
        }),
{
    let (n1, env1, r) = check_operand_spec(nodes, env, discr);
    let (bty, e) = value_of_spec(n1, r->Ok_0)->0;
    lemma_arms_of_branches(n1, tree, c, env1, bty, e, branches, branches.len() as int);
    let arms = switch_arms_spec(n1, tree, c, env1, bty, e, branches, branches.len() as int).3;
    if i > 0 {
        assert(arms.reverse()[i - 1] == arms[arms.len() - 1 - (i - 1)]);
    }
}

/// Every jump has a well-formed environment without expressions that the
/// arena lacks, and a cursor of the tree.
pub open spec fn pending_ready(nodes: Seq<ExprNode>, tree: TreeModel, items: Seq<PendingModel>) -> bool {
    forall|i: int|
        0 <= i < items.len() ==> {
            &&& (#[trigger] items[i]).env.wf()
            &&& items[i].env.exprs_below(nodes.len())
            &&& tree.holds(items[i].cursor)
        }
}

impl<'a> Checker<'a> {
    /// The guard of the branch of `bits` over the discriminant `e`. Under
    /// every valuation it holds exactly where the discriminant has the
    /// value of the branch.
    pub fn mk_guard(interner: &mut Interner, bty: BaseTy, e: ExprId, bits: u128) -> (g: ExprId)
        requires
            old(interner).wf(),
            e < old(interner)@.len(),
        ensures
            (final(interner)@, g) == guard_spec(old(interner)@, bty, e, bits),
            final(interner).wf(),
            arena_extends(final(interner)@, old(interner)@),
            g < final(interner)@.len(),
            forall|rho: Valuation| #[trigger]
                holds(final(interner)@, g, rho) == guard_meaning(old(interner)@, bty, e, bits, rho),
    {
        let g = match bty {
            BaseTy::Bool => {
                if bits != 0 {
                    e
                } else {
                    interner.intern(ExprNode::UnaryOp(UnOp::Not, e))
                }
            },
            _ => {
                let k = interner.intern(ExprNode::Constant(Constant::from_bits(bty, bits)));
                interner.intern(ExprNode::BinaryOp(BinOp::Eq, e, k))
            },
        };
        let _size = interner.len();
        assert forall|rho: Valuation| #[trigger]
            holds(interner@, g, rho) == guard_meaning(old(interner)@, bty, e, bits, rho) by {
            lemma_guard_holds(old(interner)@, bty, e, bits, rho);
        }
        g
    }

    /// The guard of `otherwise`: nothing where there is no branch; else,
    /// under every valuation, it holds exactly where the guard of no
    /// branch holds.
    pub fn mk_otherwise(interner: &mut Interner, guards: &Vec<ExprId>) -> (ow: Option<ExprId>)
        requires
            old(interner).wf(),
            forall|i: int| 0 <= i < guards@.len() ==> #[trigger] guards@[i] < old(interner)@.len(),
        ensures
            (final(interner)@, ow) == otherwise_spec(old(interner)@, guards@, guards@.len() as int),
            final(interner).wf(),
            arena_extends(final(interner)@, old(interner)@),
            ow is Some ==> ow->0 < final(interner)@.len(),
            ow is None <==> guards@.len() == 0,
            ow is Some ==> forall|rho: Valuation| #[trigger]
                holds(final(interner)@, ow->0, rho) == none_holds(old(interner)@, guards@, rho),
    {
        let mut acc: Option<ExprId> = None;
        let mut i: usize = 0;
        while i < guards.len()
            invariant
                i <= guards.len(),
                interner.wf(),
                arena_extends(interner@, old(interner)@),
                forall|k: int| 0 <= k < guards@.len() ==> #[trigger] guards@[k] < old(interner)@.len(),
                (interner@, acc) == otherwise_spec(old(interner)@, guards@, i as int),
                acc is Some ==> acc->0 < interner@.len(),
            decreases guards.len() - i,
        {
            let ng = interner.intern(ExprNode::UnaryOp(UnOp::Not, guards[i]));
            acc = match acc {
                None => Some(ng),
                Some(a) => Some(interner.intern(ExprNode::BinaryOp(BinOp::And, a, ng))),
            };
            i = i + 1;
        }
        let _size = interner.len();
        assert forall|rho: Valuation| acc is Some implies #[trigger] holds(interner@, acc->0, rho) == none_holds(
            old(interner)@,
            guards@,
            rho,
        ) by {
            lemma_otherwise_holds(old(interner)@, guards@, guards@.len() as int, rho);
        }
        proof {
            lemma_otherwise_holds(old(interner)@, guards@, guards@.len() as int, arbitrary());
        }
        acc
    }

    /// Whether a branch can be taken over a type.
    pub fn ty_switchable(interner: &Interner, ty: Ty) -> (r: bool)
        requires
            interner.wf(),
        ensures
            r == ty_switchable_spec(interner@, ty),
    {
        match value_of(interner, ty) {
            Some((bty, _)) => match bty {
                BaseTy::Unit => false,
                _ => true,
            },
            None => false,
        }
    }

    /// Whether a branch can be taken over an operand: the test to make
    /// before `check_switch_int`.
    pub fn switchable(interner: &Interner, env: &Env, discr: &Operand) -> (r: bool)
        requires
            interner.wf(),
            env.wf(),
        ensures
            r == switchable_spec(interner@, env@, *discr),
    {
        match discr {
            Operand::Constant(_) => true,
            Operand::Copy(p) => match env.lookup_place(*p) {
                Ok(ty) => Self::ty_switchable(interner, ty),
                Err(_) => true,
            },
            Operand::Move(p) => match env.lookup_place(*p) {
                Ok(ty) => Self::ty_switchable(interner, ty),
                Err(_) => true,
            },
        }
    }

    /// The rule of a branch. The discriminant must be one over which a
    /// branch can be taken: `switchable` tells.
    #[verifier::rlimit(40)]
    pub fn check_switch_int(
        interner: &mut Interner,
        builder: &mut ConstraintBuilder,
        cursor: &Cursor,
        env: Env,
        discr: &Operand,
        branches: &Vec<(u128, BasicBlock)>,
        otherwise: BasicBlock,
    ) -> (r: TyResult<Vec<Pending>>)
        requires
            ready(old(interner)@, old(builder)@, env@, *cursor),
            switchable_spec(old(interner)@, env@, *discr),
        ensures
            (SwitchOutcome {
                nodes: final(interner)@,
                tree: final(builder)@,
                arms: match r {
                    Ok(arms) => Ok(pending_model(arms@)),
                    Err(e) => Err(e),
                },
            }) == check_switch_int_spec(
                old(interner)@,
                old(builder)@,
                *cursor,
                env@,
                *discr,
                branches@,
                otherwise,
            ),
            final(interner).wf(),
            arena_extends(final(interner)@, old(interner)@),
            final(builder).wf(),
            final(builder)@.exprs_below(final(interner)@.len()),
            final(builder)@.extends(old(builder)@),
            r is Ok ==> pending_ready(final(interner)@, final(builder)@, pending_model(r->Ok_0@)),
    {
        let mut env = env;
        let discr_ty = Self::check_operand(interner, &mut env, discr)?;
        let (bty, e) = match value_of(interner, discr_ty) {
            Some(pinned) => pinned,
            None => unreached(),
        };
        proof {
            lemma_tree_below_later(builder@, old(interner)@.len(), interner@.len());
        }
        let ghost n1 = interner@;
        let ghost t0 = builder@;
        let mut guards: Vec<ExprId> = Vec::new();
        let mut arms: Vec<Pending> = Vec::new();
        let mut i: usize = 0;
        while i < branches.len()
            invariant
                i <= branches.len(),
                interner.wf(),
                builder.wf(),
                builder@.holds(*cursor),
                builder@.exprs_below(interner@.len()),
                arena_extends(interner@, n1),
                e < n1.len(),
                env.wf(),
                env@.exprs_below(interner@.len()),
                builder@.extends(t0),
                (interner@, builder@, guards@, pending_model(arms@)) == switch_arms_spec(
                    n1,
                    t0,
                    *cursor,
                    env@,
                    bty,
                    e,
                    branches@,
                    i as int,
                ),
                forall|k: int| 0 <= k < guards@.len() ==> #[trigger] guards@[k] < interner@.len(),
                pending_ready(interner@, builder@, pending_model(arms@)),
            decreases branches.len() - i,
        {
            let ghost before = interner@;
            let ghost arms_before = pending_model(arms@);
            let g = Self::mk_guard(interner, bty, e, branches[i].0);
            proof {
                lemma_tree_below_later(builder@, before.len(), interner@.len());
                lemma_env_below_later(env@, before.len(), interner@.len());
            }
            let mut c = cursor.snapshot();
            c.push_guard(builder, g);
            guards.push(g);
            arms.push(Pending { env: env.clone(), cursor: c, target: branches[i].1, main: false });
            proof {
                let now = pending_model(arms@);
                assert(now =~= arms_before.push(
                    PendingModel { env: env@, cursor: c, target: branches@[i as int].1, main: false },
                ));
                assert forall|k: int| 0 <= k < now.len() implies {
                    &&& (#[trigger] now[k]).env.wf()
                    &&& now[k].env.exprs_below(interner@.len())
                    &&& builder@.holds(now[k].cursor)
                } by {
                    if k < arms_before.len() {
                        assert(now[k] == arms_before[k]);
                        lemma_env_below_later(now[k].env, before.len(), interner@.len());
                    }
                }
            }
            i = i + 1;
        }
        let ghost n2 = interner@;
        let ow = Self::mk_otherwise(interner, &guards);
        proof {
            lemma_tree_below_later(builder@, n2.len(), interner@.len());
            lemma_env_below_later(env@, n2.len(), interner@.len());
        }
        let mut c_ow = cursor.snapshot();
        match ow {
            Some(g) => {
                c_ow.push_guard(builder, g);
            },
            None => {},
        }
        let ghost arms_model = pending_model(arms@);
        let ghost first = PendingModel { env: env@, cursor: c_ow, target: otherwise, main: false };
        let mut out: Vec<Pending> = Vec::new();
        out.push(Pending { env, cursor: c_ow, target: otherwise, main: false });
        assert(pending_model(out@) =~= seq![first]);
        while arms.len() > 0
            invariant
                arms@.len() <= arms_model.len(),
                pending_model(arms@) == arms_model.subrange(0, arms@.len() as int),
                pending_model(out@) == seq![first] + arms_model.reverse().subrange(
                    0,
                    arms_model.len() - arms@.len(),
                ),
            decreases arms@.len(),
        {
            let ghost out_before = pending_model(out@);
            let ghost k = arms@.len() - 1;
            let ghost arms_before = arms@;
            let arm = arms.pop().unwrap();
            out.push(arm);
            proof {
                assert(arm == arms_before[k]);
                assert(pending_model(arms_before)[k] == arm@);
                assert(pending_model(arms@) =~= arms_model.subrange(0, arms@.len() as int));
                assert(arm@ == arms_model[k]);
                assert(pending_model(out@) =~= out_before.push(arm@));
                assert(arms_model.reverse()[arms_model.len() - 1 - k] == arms_model[k]);
                assert(pending_model(out@) =~= seq![first] + arms_model.reverse().subrange(
                    0,
                    arms_model.len() - arms@.len(),
                ));
            }
        }
        proof {
            assert(arms_model.reverse().subrange(0, arms_model.len() as int) =~= arms_model.reverse());
            let items = pending_model(out@);
            assert forall|k: int| 0 <= k < items.len() implies {
                &&& (#[trigger] items[k]).env.wf()
                &&& items[k].env.exprs_below(interner@.len())
                &&& builder@.holds(items[k].cursor)
            } by {
                if k > 0 {
                    let j = arms_model.len() - 1 - (k - 1);
                    assert(items[k] == arms_model[j]);
                    lemma_env_below_later(arms_model[j].env, n2.len(), interner@.len());
                }
            }
        }
        Ok(out)
    }
}

} // verus!
