//! From a signature to the state in which its function is checked.
//!
//! The logical parameters become variables of the constraint tree, each
//! with its predicate as hypothesis. The regions that the signature
//! requires become regions of the environment, and the arguments become
//! locals. What the signature ensures and returns is kept for the return.

use vstd::prelude::*;
use crate::call::{pairs_below, params_below, types_below};
use crate::constraint::{unpack_spec, ConstraintBuilder, Cursor, NodeKind, TreeModel};
use crate::env::{lemma_env_below_later, lemma_set_slot_below, Env, EnvModel, Slot};
use crate::global_env::{lemma_sig_below_later, FnSig, Param};
use crate::intern::{arena_extends, arena_wf, intern_spec, Interner};
use crate::ir::Body;
use crate::result::{TyError, TyResult};
use crate::rules::{lemma_tree_below_later, ready};
use crate::subst::{lemma_bindings_below_later, subst_expr_spec, subst_ty_spec, Subst, SubstModel};
use crate::ty::{ExprNode, FnId, Name, RegionId, Ty};

verus! {

/// What is in hand while a signature is lowered.
pub struct LowerState {
    pub nodes: Seq<ExprNode>,
    pub tree: TreeModel,
    pub cursor: Cursor,
    pub env: EnvModel,
    pub subst: SubstModel,
}

/// One logical parameter: a fresh variable stands for it from now on, and
/// a scope binds the variable and takes the parameter's predicate as
/// hypothesis.
pub open spec fn bind_param_spec(st: LowerState, param: Param) -> LowerState {
    let x = st.tree.names.len() as usize;
    let t1 = st.tree.with_name(param.sort);
    let (n1, xe) = intern_spec(st.nodes, ExprNode::Free(x));
    let s1 = SubstModel { exprs: st.subst.exprs.insert(param.name, xe), ..st.subst };
    let (n2, p) = subst_expr_spec(n1, s1.exprs, None, param.pred);
    LowerState {
        nodes: n2,
        tree: t1.push(st.cursor, NodeKind::ForAll(x, param.sort, p)),
        cursor: t1.pushed(),
        env: st.env,
        subst: s1,
    }
}

pub open spec fn bind_params_spec(st: LowerState, params: Seq<Param>, i: int) -> LowerState
    decreases params.len() - i,
{
    if i < 0 || i >= params.len() {
        st
    } else {
        bind_params_spec(bind_param_spec(st, params[i]), params, i + 1)
    }
}

/// One region precondition: a new region holds the required type, with its
/// values named, and the region's name stands for it from now on.
pub open spec fn define_region_spec(st: LowerState, name: Name, ty: Ty) -> LowerState {
    let (n1, ty1) = subst_ty_spec(st.nodes, st.subst, ty);
    let (n2, t2, c2, ty2) = unpack_spec(n1, st.tree, st.cursor, ty1);
    LowerState {
        nodes: n2,
        tree: t2,
        cursor: c2,
        env: st.env.push_region(ty2).0,
        subst: SubstModel { regions: st.subst.regions.insert(name, st.env.push_region(ty2).1), ..st.subst },
    }
}

pub open spec fn define_regions_spec(st: LowerState, preconds: Seq<(Name, Ty)>, i: int) -> LowerState
    decreases preconds.len() - i,
{
    if i < 0 || i >= preconds.len() {
        st
    } else {
        define_regions_spec(define_region_spec(st, preconds[i].0, preconds[i].1), preconds, i + 1)
    }
}

/// One argument: the local of the argument holds the parameter's type,
/// with its values named. The locals of the arguments follow the return
/// place.
pub open spec fn define_arg_spec(st: LowerState, i: int, ty: Ty) -> (LowerState, TyResult<()>) {
    let (n1, ty1) = subst_ty_spec(st.nodes, st.subst, ty);
    let (n2, t2, c2, ty2) = unpack_spec(n1, st.tree, st.cursor, ty1);
    (
        LowerState {
            nodes: n2,
            tree: t2,
            cursor: c2,
            env: st.env.define_local((i + 1) as usize, ty2).0,
            subst: st.subst,
        },
        st.env.define_local((i + 1) as usize, ty2).1,
    )
}

pub open spec fn define_args_spec(st: LowerState, args: Seq<Ty>, i: int) -> (LowerState, TyResult<()>)
    decreases args.len() - i,
{
    if i < 0 || i >= args.len() {
        (st, Ok(()))
    } else {
        let (st1, r) = define_arg_spec(st, i, args[i]);
        match r {
            Ok(_) => define_args_spec(st1, args, i + 1),
            Err(e) => (st1, Err(e)),
        }
    }
}

/// Puts `acc` before the pairs of an outcome.
pub open spec fn with_pairs(acc: Seq<(RegionId, Ty)>, o: (Seq<ExprNode>, TyResult<Seq<(RegionId, Ty)>>)) -> (
    Seq<ExprNode>,
    TyResult<Seq<(RegionId, Ty)>>,
) {
    (
        o.0,
        match o.1 {
            Ok(pairs) => Ok(acc + pairs),
            Err(e) => Err(e),
        },
    )
}

/// The region postconditions from `i` on, each as the region that its name
/// stands for and the type under the substitution. A name that stands for
/// no region is a fault of the signature.
pub open spec fn lower_ensures_spec(
    nodes: Seq<ExprNode>,
    subst: SubstModel,
    postconds: Seq<(Name, Ty)>,
    i: int,
) -> (Seq<ExprNode>, TyResult<Seq<(RegionId, Ty)>>)
    decreases postconds.len() - i,
{
    if i < 0 || i >= postconds.len() {
        (nodes, Ok(Seq::empty()))
    } else if subst.regions.contains_key(postconds[i].0) {
        let (n1, ty1) = subst_ty_spec(nodes, subst, postconds[i].1);
        with_pairs(
            seq![(subst.regions[postconds[i].0], ty1)],
            lower_ensures_spec(n1, subst, postconds, i + 1),
        )
    } else {
        (nodes, Err(TyError::Malformed))
    }
}

/// A lowered signature as contracts see it.
pub struct LoweredModel {
    pub env: EnvModel,
    pub cursor: Cursor,
    pub ret_ty: Ty,
    pub ensures: Seq<(RegionId, Ty)>,
}

/// Lowering a signature for a body. The signature must have as many
/// arguments as the body, and the body a local for each and for the
/// return place.
pub open spec fn lower_signature_spec(
    nodes: Seq<ExprNode>,
    tree: TreeModel,
    c: Cursor,
    body: &Body,
    sig: &FnSig,
    func: FnId,
) -> (Seq<ExprNode>, TreeModel, TyResult<LoweredModel>) {
    if sig.args@.len() != body.nargs || body.nargs >= body.nlocals {
        (nodes, tree, Err(TyError::Malformed))
    } else {
        let st0 = LowerState {
            nodes,
            tree,
            cursor: c,
            env: EnvModel::with_locals(func, body.nlocals as nat),
            subst: SubstModel { exprs: Map::empty(), regions: Map::empty() },
        };
        let st1 = bind_params_spec(st0, sig.params@, 0);
        let st2 = define_regions_spec(st1, sig.requires@, 0);
        let (st3, r3) = define_args_spec(st2, sig.args@, 0);
        match r3 {
            Err(e) => (st3.nodes, st3.tree, Err(e)),
            Ok(_) => {
                let (n4, r4) = lower_ensures_spec(st3.nodes, st3.subst, sig.ensures@, 0);
                match r4 {
                    Err(e) => (n4, st3.tree, Err(e)),
                    Ok(ensured) => {
                        let (n5, ret) = subst_ty_spec(n4, st3.subst, sig.ret);
                        (
                            n5,
                            st3.tree,
                            Ok(LoweredModel { env: st3.env, cursor: st3.cursor, ret_ty: ret, ensures: ensured }),
                        )
                    },
                }
            },
        }
    }
}

/// A lowered signature: the environment and the cursor at the entry of
/// the function, and what the function owes when it returns.
pub struct Lowered {
    pub env: Env,
    pub cursor: Cursor,
    pub ret_ty: Ty,
    pub ensures: Vec<(RegionId, Ty)>,
}

impl View for Lowered {
    type V = LoweredModel;

    open spec fn view(&self) -> LoweredModel {
        LoweredModel { env: self.env@, cursor: self.cursor, ret_ty: self.ret_ty, ensures: self.ensures@ }
    }
}

fn bind_params(
    interner: &mut Interner,
    builder: &mut ConstraintBuilder,
    cursor: &mut Cursor,
    subst: &mut Subst,
    params: &Vec<Param>,
    env: Ghost<EnvModel>,
)
    requires
        ready(old(interner)@, old(builder)@, env@, *old(cursor)),
        old(subst)@.exprs_below(old(interner)@.len()),
        params_below(params@, old(interner)@.len()),
    ensures
        (LowerState {
            nodes: final(interner)@,
            tree: final(builder)@,
            cursor: *final(cursor),
            env: env@,
            subst: final(subst)@,
        }) == bind_params_spec(
            LowerState {
                nodes: old(interner)@,
                tree: old(builder)@,
                cursor: *old(cursor),
                env: env@,
                subst: old(subst)@,
            },
            params@,
            0,
        ),
        ready(final(interner)@, final(builder)@, env@, *final(cursor)),
        arena_extends(final(interner)@, old(interner)@),
        final(subst)@.exprs_below(final(interner)@.len()),
{
    let mut i: usize = 0;
    while i < params.len()
        invariant
            i <= params.len(),
            ready(interner@, builder@, env@, *cursor),
            arena_extends(interner@, old(interner)@),
            subst@.exprs_below(interner@.len()),
            params_below(params@, old(interner)@.len()),
            bind_params_spec(
                LowerState { nodes: interner@, tree: builder@, cursor: *cursor, env: env@, subst: subst@ },
                params@,
                i as int,
            ) == bind_params_spec(
                LowerState {
                    nodes: old(interner)@,
                    tree: old(builder)@,
                    cursor: *old(cursor),
                    env: env@,
                    subst: old(subst)@,
                },
                params@,
                0,
            ),
        decreases params.len() - i,
    {
        let ghost before = interner@;
        let param = params[i];
        assert(params@[i as int].pred < old(interner)@.len());
        let fresh = builder.fresh_name(param.sort);
        let xe = interner.intern(ExprNode::Free(fresh));
        proof {
            lemma_bindings_below_later(subst@.exprs, before.len(), interner@.len());
        }
        subst.insert_expr(param.name, xe);
        let ghost mid = interner@;
        let p = subst.subst_expr(interner, param.pred);
        proof {
            lemma_bindings_below_later(subst@.exprs, mid.len(), interner@.len());
            lemma_tree_below_later(builder@, before.len(), interner@.len());
            lemma_env_below_later(env@, before.len(), interner@.len());
        }
        cursor.push_forall(builder, fresh, param.sort, p);
        i = i + 1;
    }
}

fn define_regions(
    interner: &mut Interner,
    builder: &mut ConstraintBuilder,
    cursor: &mut Cursor,
    env: &mut Env,
    subst: &mut Subst,
    preconds: &Vec<(Name, Ty)>,
)
    requires
        ready(old(interner)@, old(builder)@, old(env)@, *old(cursor)),
        old(subst)@.exprs_below(old(interner)@.len()),
        pairs_below(preconds@, old(interner)@.len()),
    ensures
        (LowerState {
            nodes: final(interner)@,
            tree: final(builder)@,
            cursor: *final(cursor),
            env: final(env)@,
            subst: final(subst)@,
        }) == define_regions_spec(
            LowerState {
                nodes: old(interner)@,
                tree: old(builder)@,
                cursor: *old(cursor),
                env: old(env)@,
                subst: old(subst)@,
            },
            preconds@,
            0,
        ),
        ready(final(interner)@, final(builder)@, final(env)@, *final(cursor)),
        arena_extends(final(interner)@, old(interner)@),
        final(subst)@.exprs_below(final(interner)@.len()),
{
    let mut i: usize = 0;
    while i < preconds.len()
        invariant
            i <= preconds.len(),
            ready(interner@, builder@, env@, *cursor),
            arena_extends(interner@, old(interner)@),
            subst@.exprs_below(interner@.len()),
            pairs_below(preconds@, old(interner)@.len()),
            define_regions_spec(
                LowerState { nodes: interner@, tree: builder@, cursor: *cursor, env: env@, subst: subst@ },
                preconds@,
                i as int,
            ) == define_regions_spec(
                LowerState {
                    nodes: old(interner)@,
                    tree: old(builder)@,
                    cursor: *old(cursor),
                    env: old(env)@,
                    subst: old(subst)@,
                },
                preconds@,
                0,
            ),
        decreases preconds.len() - i,
    {
        let ghost before = interner@;
        let ghost env_before = env@;
        let (name, ty) = preconds[i];
        assert(preconds@[i as int].1.expr_below(old(interner)@.len()));
        let ty = subst.subst_ty(interner, ty);
        proof {
            lemma_tree_below_later(builder@, before.len(), interner@.len());
        }
        let ty = cursor.unpack(interner, builder, ty);
        let rvid = env.push_region(ty);
        subst.insert_region(name, rvid);
        proof {
            lemma_bindings_below_later(subst@.exprs, before.len(), interner@.len());
            lemma_env_below_later(env_before, before.len(), interner@.len());
            assert forall|k: int| 0 <= k < env@.regions.len() implies (#[trigger] env@.regions[k]).expr_below(
                interner@.len(),
            ) by {
                if k < env_before.regions.len() {
                    assert(env@.regions[k] == env_before.regions[k]);
                }
            }
        }
        i = i + 1;
    }
}

fn define_args(
    interner: &mut Interner,
    builder: &mut ConstraintBuilder,
    cursor: &mut Cursor,
    env: &mut Env,
    subst: &Subst,
    args: &Vec<Ty>,
) -> (r: TyResult<()>)
    requires
        ready(old(interner)@, old(builder)@, old(env)@, *old(cursor)),
        subst@.exprs_below(old(interner)@.len()),
        types_below(args@, old(interner)@.len()),
    ensures
        (
            LowerState {
                nodes: final(interner)@,
                tree: final(builder)@,
                cursor: *final(cursor),
                env: final(env)@,
                subst: subst@,
            },
            r,
        ) == define_args_spec(
            LowerState {
                nodes: old(interner)@,
                tree: old(builder)@,
                cursor: *old(cursor),
                env: old(env)@,
                subst: subst@,
            },
            args@,
            0,
        ),
        ready(final(interner)@, final(builder)@, final(env)@, *final(cursor)),
        arena_extends(final(interner)@, old(interner)@),
{
    let mut i: usize = 0;
    while i < args.len()
        invariant
            i <= args.len(),
            ready(interner@, builder@, env@, *cursor),
            arena_extends(interner@, old(interner)@),
            subst@.exprs_below(interner@.len()),
            types_below(args@, old(interner)@.len()),
            define_args_spec(
                LowerState { nodes: interner@, tree: builder@, cursor: *cursor, env: env@, subst: subst@ },
                args@,
                i as int,
            ) == define_args_spec(
                LowerState {
                    nodes: old(interner)@,
                    tree: old(builder)@,
                    cursor: *old(cursor),
                    env: old(env)@,
                    subst: subst@,
                },
                args@,
                0,
            ),
        decreases args.len() - i,
    {
        let ghost before = interner@;
        assert(args@[i as int].expr_below(old(interner)@.len()));
        let ty = subst.subst_ty(interner, args[i]);
        proof {
            lemma_tree_below_later(builder@, before.len(), interner@.len());
        }
        let ty = cursor.unpack(interner, builder, ty);
        proof {
            lemma_bindings_below_later(subst@.exprs, before.len(), interner@.len());
            lemma_env_below_later(env@, before.len(), interner@.len());
        }
        let ghost env_mid = env@;
        let r = env.define_local(i + 1, ty);
        proof {
            if r is Ok {
                lemma_set_slot_below(env_mid, Slot::Local((i + 1) as usize), ty, interner@.len());
            }
        }
        match r {
            Ok(_) => {},
            Err(e) => {
                return Err(e);
            },
        }
        i = i + 1;
    }
    Ok(())
}

fn lower_ensures(interner: &mut Interner, subst: &Subst, postconds: &Vec<(Name, Ty)>) -> (r: TyResult<
    Vec<(RegionId, Ty)>,
>)
    requires
        old(interner).wf(),
        subst@.exprs_below(old(interner)@.len()),
        pairs_below(postconds@, old(interner)@.len()),
    ensures
        (
            final(interner)@,
            match r {
                Ok(pairs) => Ok(pairs@),
                Err(e) => Err(e),
            },
        ) == lower_ensures_spec(old(interner)@, subst@, postconds@, 0),
        final(interner).wf(),
        arena_extends(final(interner)@, old(interner)@),
        r is Ok ==> pairs_below(r->Ok_0@, final(interner)@.len()),
{
    let mut out: Vec<(RegionId, Ty)> = Vec::new();
    let mut i: usize = 0;
    while i < postconds.len()
        invariant
            i <= postconds.len(),
            interner.wf(),
            arena_extends(interner@, old(interner)@),
            subst@.exprs_below(interner@.len()),
            pairs_below(postconds@, old(interner)@.len()),
            pairs_below(out@, interner@.len()),
            with_pairs(out@, lower_ensures_spec(interner@, subst@, postconds@, i as int))
                == lower_ensures_spec(old(interner)@, subst@, postconds@, 0),
        decreases postconds.len() - i,
    {
        let ghost before = interner@;
        let ghost out_before = out@;
        let (name, ty) = postconds[i];
        assert(postconds@[i as int].1.expr_below(old(interner)@.len()));
        let region = match subst.lookup_region(name) {
            Some(region) => region,
            None => {
                return Err(TyError::Malformed);
            },
        };
        let ty = subst.subst_ty(interner, ty);
        out.push((region, ty));
        proof {
            lemma_bindings_below_later(subst@.exprs, before.len(), interner@.len());
            let rest = lower_ensures_spec(interner@, subst@, postconds@, i + 1);
            match rest.1 {
                Ok(more) => {
                    assert(out_before + (seq![(region, ty)] + more) =~= out@ + more);
                },
                Err(_) => {},
            }
            assert forall|k: int| 0 <= k < out@.len() implies (#[trigger] out@[k]).1.expr_below(
                interner@.len(),
            ) by {
                if k < out_before.len() {
                    assert(out@[k] == out_before[k]);
                }
            }
        }
        i = i + 1;
    }
    assert(out@ + Seq::<(RegionId, Ty)>::empty() =~= out@);
    Ok(out)
}

/// Lowers a signature for a body into a tree under a cursor.
pub fn lower_signature(
    interner: &mut Interner,
    builder: &mut ConstraintBuilder,
    cursor: Cursor,
    body: &Body,
    fn_sig: &FnSig,
    func_id: FnId,
) -> (r: TyResult<Lowered>)
    requires
        old(interner).wf(),
        old(builder).wf(),
        old(builder)@.holds(cursor),
        old(builder)@.exprs_below(old(interner)@.len()),
        fn_sig.exprs_below(old(interner)@.len()),
    ensures
        (
            final(interner)@,
            final(builder)@,
            match r {
                Ok(l) => Ok(l@),
                Err(e) => Err(e),
            },
        ) == lower_signature_spec(old(interner)@, old(builder)@, cursor, body, fn_sig, func_id),
        final(interner).wf(),
        arena_extends(final(interner)@, old(interner)@),
        final(builder).wf(),
        final(builder)@.exprs_below(final(interner)@.len()),
        r is Ok ==> {
            &&& r->Ok_0@.env.wf()
            &&& r->Ok_0@.env.exprs_below(final(interner)@.len())
            &&& final(builder)@.holds(r->Ok_0@.cursor)
            &&& r->Ok_0@.ret_ty.expr_below(final(interner)@.len())
            &&& pairs_below(r->Ok_0@.ensures, final(interner)@.len())
        },
{
    if fn_sig.args.len() != body.nargs || body.nargs >= body.nlocals {
        return Err(TyError::Malformed);
    }
    let mut env = Env::with_locals(func_id, body.nlocals);
    let mut subst = Subst::new();
    let mut cursor = cursor;
    let ghost n0 = interner@;
    assert(subst@ == SubstModel { exprs: Map::empty(), regions: Map::empty() });
    bind_params(interner, builder, &mut cursor, &mut subst, &fn_sig.params, Ghost(env@));
    let ghost n1 = interner@;
    proof {
        lemma_sig_below_later(fn_sig, n0.len(), n1.len());
    }
    define_regions(interner, builder, &mut cursor, &mut env, &mut subst, &fn_sig.requires);
    let ghost n2 = interner@;
    proof {
        lemma_sig_below_later(fn_sig, n1.len(), n2.len());
    }
    define_args(interner, builder, &mut cursor, &mut env, &subst, &fn_sig.args)?;
    let ghost n3 = interner@;
    proof {
        lemma_sig_below_later(fn_sig, n2.len(), n3.len());
        lemma_bindings_below_later(subst@.exprs, n2.len(), n3.len());
    }
    let ensured = lower_ensures(interner, &subst, &fn_sig.ensures)?;
    let ghost n4 = interner@;
    proof {
        lemma_sig_below_later(fn_sig, n3.len(), n4.len());
        lemma_bindings_below_later(subst@.exprs, n3.len(), n4.len());
    }
    let ret_ty = subst.subst_ty(interner, fn_sig.ret);
    proof {
        lemma_tree_below_later(builder@, n3.len(), interner@.len());
        lemma_env_below_later(env@, n3.len(), interner@.len());
        assert forall|k: int| 0 <= k < ensured@.len() implies (#[trigger] ensured@[k]).1.expr_below(
            interner@.len(),
        ) by {
            assert(ensured@[k].1.expr_below(n4.len()));
        }
    }
    Ok(Lowered { env, cursor, ret_ty, ensures: ensured })
}

} // verus!
