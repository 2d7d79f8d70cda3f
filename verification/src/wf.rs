//! Well-formedness of signatures.
//!
//! A signature is checked before any body is checked against it or calls
//! it: its predicates must be boolean expressions over its logical
//! parameters, and its references must refer to regions that it declares.

use vstd::prelude::*;
use rustc_hash::FxHashMap;
use crate::fxmap::{fx_contains_key, fx_get, fx_insert, fx_new};
use crate::global_env::{FnSig, Param};
use crate::intern::Interner;
use crate::ty::{BinOp, Constant, ExprId, ExprNode, Name, Sort, Ty, UnOp};

verus! {

/// The part of a signature that is not well formed: the first, in the
/// order in which a signature is written.
#[derive(Clone, Copy, Debug, PartialEq, Eq, Structural)]
pub enum WfError {
    /// The predicate of the logical parameter at this position.
    Param(usize),
    /// The type of the region precondition at this position.
    Requires(usize),
    /// The region precondition at this position names a region that an
    /// earlier one names.
    DuplicateRegion(usize),
    /// The type of the argument at this position.
    Arg(usize),
    /// The return type.
    Ret,
    /// The type of the region postcondition at this position.
    Ensures(usize),
}

/// The sort of the result of a binary operator on operands of the given
/// sorts, if it takes them.
pub open spec fn binary_sort_spec(op: BinOp, s1: Sort, s2: Sort) -> Option<Sort> {
    match op {
        BinOp::Eq | BinOp::Ne => if s1 == s2 {
            Some(Sort::Bool)
        } else {
            None
        },
        BinOp::Gt | BinOp::Ge | BinOp::Lt | BinOp::Le => if s1 == Sort::Int && s2 == Sort::Int {
            Some(Sort::Bool)
        } else {
            None
        },
        BinOp::And | BinOp::Or => if s1 == Sort::Bool && s2 == Sort::Bool {
            Some(Sort::Bool)
        } else {
            None
        },
        BinOp::Add | BinOp::Sub | BinOp::Mul | BinOp::Div => if s1 == Sort::Int && s2 == Sort::Int {
            Some(Sort::Int)
        } else {
            None
        },
    }
}

/// The sort of an expression, if it has one: every name in it has a sort,
/// the implicit binder has one if it occurs, every operator is applied to
/// operands of the sorts that it takes, and no hole occurs.
pub open spec fn sort_check_spec(
    nodes: Seq<ExprNode>,
    sorts: Map<Name, Sort>,
    bound: Option<Sort>,
    e: ExprId,
) -> Option<Sort>
    decreases e,
{
    if e < nodes.len() {
        match nodes[e as int] {
            ExprNode::Bound => bound,
            ExprNode::Free(x) => if sorts.contains_key(x) {
                Some(sorts[x])
            } else {
                None
            },
            ExprNode::Constant(Constant::Bool(_)) => Some(Sort::Bool),
            ExprNode::Constant(Constant::Int(_, _)) => Some(Sort::Int),
            ExprNode::Hole(_, _) => None,
            ExprNode::UnaryOp(op, a) => if a < e {
                match (op, sort_check_spec(nodes, sorts, bound, a)) {
                    (UnOp::Not, Some(Sort::Bool)) => Some(Sort::Bool),
                    (UnOp::Neg, Some(Sort::Int)) => Some(Sort::Int),
                    _ => None,
                }
            } else {
                None
            },
            ExprNode::BinaryOp(op, a, b) => if a < e && b < e {
                match (sort_check_spec(nodes, sorts, bound, a), sort_check_spec(nodes, sorts, bound, b)) {
                    (Some(s1), Some(s2)) => binary_sort_spec(op, s1, s2),
                    _ => None,
                }
            } else {
                None
            },
            ExprNode::Nil => Some(Sort::Bool),
            ExprNode::Cons(a, b) => if a < e && b < e {
                match (sort_check_spec(nodes, sorts, bound, a), sort_check_spec(nodes, sorts, bound, b)) {
                    (Some(Sort::Bool), Some(Sort::Bool)) => Some(Sort::Bool),
                    _ => None,
                }
            } else {
                None
            },
        }
    } else {
        None
    }
}

/// Whether a type may stand in a signature: a refinement by a boolean
/// predicate over the values of its base type, a reference to a declared
/// region, or a function. A slot without a value is no type of a
/// signature.
pub open spec fn ty_wf_spec(nodes: Seq<ExprNode>, sorts: Map<Name, Sort>, regions: Set<Name>, ty: Ty) -> bool {
    match ty {
        Ty::Refine(b, e) => sort_check_spec(nodes, sorts, Some(b.sort_spec()), e) == Some(Sort::Bool),
        Ty::MutRef(l) => regions.contains(l),
        Ty::Uninit => false,
        Ty::Func(_) => true,
    }
}

/// The sorts of the first `n` logical parameters. Of two parameters of one
/// name the later counts.
pub open spec fn param_sorts(params: Seq<Param>, n: int) -> Map<Name, Sort>
    decreases n,
{
    if n <= 0 || n > params.len() {
        Map::empty()
    } else {
        param_sorts(params, n - 1).insert(params[n - 1].name, params[n - 1].sort)
    }
}

/// The regions that the first `n` pairs name.
pub open spec fn region_names(pairs: Seq<(Name, Ty)>, n: int) -> Set<Name>
    decreases n,
{
    if n <= 0 || n > pairs.len() {
        Set::empty()
    } else {
        region_names(pairs, n - 1).insert(pairs[n - 1].0)
    }
}

/// The first of the types from `i` on that is not well formed.
pub open spec fn first_ill_formed(
    nodes: Seq<ExprNode>,
    sorts: Map<Name, Sort>,
    regions: Set<Name>,
    tys: Seq<Ty>,
    i: int,
) -> Option<usize>
    decreases tys.len() - i,
{
    if i < 0 || i >= tys.len() {
        None
    } else if ty_wf_spec(nodes, sorts, regions, tys[i]) {
        first_ill_formed(nodes, sorts, regions, tys, i + 1)
    } else {
        Some(i as usize)
    }
}

/// The first of the pairs from `i` on whose type is not well formed.
pub open spec fn first_ill_formed_pair(
    nodes: Seq<ExprNode>,
    sorts: Map<Name, Sort>,
    regions: Set<Name>,
    pairs: Seq<(Name, Ty)>,
    i: int,
) -> Option<usize>
    decreases pairs.len() - i,
{
    if i < 0 || i >= pairs.len() {
        None
    } else if ty_wf_spec(nodes, sorts, regions, pairs[i].1) {
        first_ill_formed_pair(nodes, sorts, regions, pairs, i + 1)
    } else {
        Some(i as usize)
    }
}

/// The first of the parameters from `i` on whose predicate is not a
/// boolean expression over the parameters.
pub open spec fn first_ill_sorted_param(
    nodes: Seq<ExprNode>,
    sorts: Map<Name, Sort>,
    params: Seq<Param>,
    i: int,
) -> Option<usize>
    decreases params.len() - i,
{
    if i < 0 || i >= params.len() {
        None
    } else if sort_check_spec(nodes, sorts, None, params[i].pred) == Some(Sort::Bool) {
        first_ill_sorted_param(nodes, sorts, params, i + 1)
    } else {
        Some(i as usize)
    }
}

/// The first of the pairs from `i` on that names a region which an
/// earlier pair names.
pub open spec fn first_duplicate(pairs: Seq<(Name, Ty)>, i: int) -> Option<usize>
    decreases pairs.len() - i,
{
    if i < 0 || i >= pairs.len() {
        None
    } else if region_names(pairs, i).contains(pairs[i].0) {
        Some(i as usize)
    } else {
        first_duplicate(pairs, i + 1)
    }
}

/// What is wrong with a signature, if anything is. The predicates of the
/// parameters are looked at first; then the region preconditions, whose
/// types may refer to the regions that they declare; then the arguments;
/// then the return type and the region postconditions, whose types may
/// refer to the regions that the postconditions declare too.
pub open spec fn check_fn_sig_spec(nodes: Seq<ExprNode>, sig: &FnSig) -> Result<(), WfError> {
    let sorts = param_sorts(sig.params@, sig.params@.len() as int);
    let before = region_names(sig.requires@, sig.requires@.len() as int);
    let after = before.union(region_names(sig.ensures@, sig.ensures@.len() as int));
    match first_ill_sorted_param(nodes, sorts, sig.params@, 0) {
        Some(i) => Err(WfError::Param(i)),
        None => match first_duplicate(sig.requires@, 0) {
            Some(i) => Err(WfError::DuplicateRegion(i)),
            None => match first_ill_formed_pair(nodes, sorts, before, sig.requires@, 0) {
                Some(i) => Err(WfError::Requires(i)),
                None => match first_ill_formed(nodes, sorts, before, sig.args@, 0) {
                    Some(i) => Err(WfError::Arg(i)),
                    None => if !ty_wf_spec(nodes, sorts, after, sig.ret) {
                        Err(WfError::Ret)
                    } else {
                        match first_ill_formed_pair(nodes, sorts, after, sig.ensures@, 0) {
                            Some(i) => Err(WfError::Ensures(i)),
                            None => Ok(()),
                        }
                    },
                },
            },
        },
    }
}

/// The sort of the result of a binary operator.
pub fn binary_sort(op: BinOp, s1: Sort, s2: Sort) -> (r: Option<Sort>)
    ensures
        r == binary_sort_spec(op, s1, s2),
{
    match op {
        BinOp::Eq | BinOp::Ne => if s1 == s2 {
            Some(Sort::Bool)
        } else {
            None
        },
        BinOp::Gt | BinOp::Ge | BinOp::Lt | BinOp::Le => if s1 == Sort::Int && s2 == Sort::Int {
            Some(Sort::Bool)
        } else {
            None
        },
        BinOp::And | BinOp::Or => if s1 == Sort::Bool && s2 == Sort::Bool {
            Some(Sort::Bool)
        } else {
            None
        },
        BinOp::Add | BinOp::Sub | BinOp::Mul | BinOp::Div => if s1 == Sort::Int && s2 == Sort::Int {
            Some(Sort::Int)
        } else {
            None
        },
    }
}

/// The sort of an expression, if it has one.
pub fn sort_check(interner: &Interner, sorts: &FxHashMap<Name, Sort>, bound: Option<Sort>, e: ExprId) -> (r:
    Option<Sort>)
    requires
        interner.wf(),
    ensures
        r == sort_check_spec(interner@, sorts@, bound, e),
    decreases e,
{
    if e >= interner.len() {
        return None;
    }
    assert(interner@[e as int].children_below(e as nat));
    match interner.get(e) {
        ExprNode::Bound => bound,
        ExprNode::Free(x) => match fx_get(sorts, x) {
            Some(s) => Some(*s),
            None => None,
        },
        ExprNode::Constant(Constant::Bool(_)) => Some(Sort::Bool),
        ExprNode::Constant(Constant::Int(_, _)) => Some(Sort::Int),
        ExprNode::Hole(_, _) => None,
        ExprNode::UnaryOp(op, a) => match (op, sort_check(interner, sorts, bound, a)) {
            (UnOp::Not, Some(Sort::Bool)) => Some(Sort::Bool),
            (UnOp::Neg, Some(Sort::Int)) => Some(Sort::Int),
            _ => None,
        },
        ExprNode::BinaryOp(op, a, b) => {
            match (sort_check(interner, sorts, bound, a), sort_check(interner, sorts, bound, b)) {
                (Some(s1), Some(s2)) => binary_sort(op, s1, s2),
                _ => None,
            }
        },
        ExprNode::Nil => Some(Sort::Bool),
        ExprNode::Cons(a, b) => {
            match (sort_check(interner, sorts, bound, a), sort_check(interner, sorts, bound, b)) {
                (Some(Sort::Bool), Some(Sort::Bool)) => Some(Sort::Bool),
                _ => None,
            }
        },
    }
}

fn ty_wf(interner: &Interner, sorts: &FxHashMap<Name, Sort>, regions: &FxHashMap<Name, bool>, ty: Ty) -> (r: bool)
    requires
        interner.wf(),
    ensures
        r == ty_wf_spec(interner@, sorts@, regions@.dom(), ty),
{
    match ty {
        Ty::Refine(b, e) => match sort_check(interner, sorts, Some(b.sort()), e) {
            Some(Sort::Bool) => true,
            _ => false,
        },
        Ty::MutRef(l) => fx_contains_key(regions, l),
        Ty::Uninit => false,
        Ty::Func(_) => true,
    }
}

fn check_pairs(
    interner: &Interner,
    sorts: &FxHashMap<Name, Sort>,
    regions: &FxHashMap<Name, bool>,
    pairs: &Vec<(Name, Ty)>,
) -> (r: Option<usize>)
    requires
        interner.wf(),
    ensures
        r == first_ill_formed_pair(interner@, sorts@, regions@.dom(), pairs@, 0),
{
    let mut i: usize = 0;
    while i < pairs.len()
        invariant
            i <= pairs.len(),
            interner.wf(),
            first_ill_formed_pair(interner@, sorts@, regions@.dom(), pairs@, i as int)
                == first_ill_formed_pair(interner@, sorts@, regions@.dom(), pairs@, 0),
        decreases pairs.len() - i,
    {
        if !ty_wf(interner, sorts, regions, pairs[i].1) {
            return Some(i);
        }
        i = i + 1;
    }
    None
}

fn check_tys(
    interner: &Interner,
    sorts: &FxHashMap<Name, Sort>,
    regions: &FxHashMap<Name, bool>,
    tys: &Vec<Ty>,
) -> (r: Option<usize>)
    requires
        interner.wf(),
    ensures
        r == first_ill_formed(interner@, sorts@, regions@.dom(), tys@, 0),
{
    let mut i: usize = 0;
    while i < tys.len()
        invariant
            i <= tys.len(),
            interner.wf(),
            first_ill_formed(interner@, sorts@, regions@.dom(), tys@, i as int) == first_ill_formed(
                interner@,
                sorts@,
                regions@.dom(),
                tys@,
                0,
            ),
        decreases tys.len() - i,
    {
        if !ty_wf(interner, sorts, regions, tys[i]) {
            return Some(i);
        }
        i = i + 1;
    }
    None
}

fn add_regions(regions: &mut FxHashMap<Name, bool>, pairs: &Vec<(Name, Ty)>) -> (dup: Option<usize>)
    ensures
        final(regions)@.dom() == old(regions)@.dom().union(region_names(pairs@, pairs@.len() as int)),
        old(regions)@.dom() == Set::<Name>::empty() ==> dup == first_duplicate(pairs@, 0),
{
    let mut dup: Option<usize> = None;
    let mut i: usize = 0;
    assert(old(regions)@.dom().union(region_names(pairs@, 0)) =~= old(regions)@.dom());
    while i < pairs.len()
        invariant
            i <= pairs.len(),
            regions@.dom() == old(regions)@.dom().union(region_names(pairs@, i as int)),
            old(regions)@.dom() == Set::<Name>::empty() ==> match dup {
                Some(k) => first_duplicate(pairs@, 0) == Some(k),
                None => first_duplicate(pairs@, i as int) == first_duplicate(pairs@, 0),
            },
        decreases pairs.len() - i,
    {
        let name = pairs[i].0;
        proof {
            if old(regions)@.dom() == Set::<Name>::empty() {
                assert(regions@.dom() =~= region_names(pairs@, i as int));
            }
        }
        if dup.is_none() && fx_contains_key(regions, name) {
            dup = Some(i);
        }
        let _ = fx_insert(regions, name, true);
        assert(regions@.dom() =~= old(regions)@.dom().union(region_names(pairs@, i + 1)));
        i = i + 1;
    }
    dup
}

/// Checks that a signature is well formed.
pub fn check_fn_sig(interner: &Interner, fn_sig: &FnSig) -> (r: Result<(), WfError>)
    requires
        interner.wf(),
    ensures
        r == check_fn_sig_spec(interner@, fn_sig),
{
    let mut sorts: FxHashMap<Name, Sort> = fx_new();
    let mut k: usize = 0;
    assert(sorts@ =~= param_sorts(fn_sig.params@, 0));
    while k < fn_sig.params.len()
        invariant
            k <= fn_sig.params.len(),
            sorts@ == param_sorts(fn_sig.params@, k as int),
        decreases fn_sig.params.len() - k,
    {
        let _ = fx_insert(&mut sorts, fn_sig.params[k].name, fn_sig.params[k].sort);
        k = k + 1;
    }
    let mut i: usize = 0;
    while i < fn_sig.params.len()
        invariant
            i <= fn_sig.params.len(),
            interner.wf(),
            sorts@ == param_sorts(fn_sig.params@, fn_sig.params@.len() as int),
            first_ill_sorted_param(interner@, sorts@, fn_sig.params@, i as int) == first_ill_sorted_param(
                interner@,
                sorts@,
                fn_sig.params@,
                0,
            ),
        decreases fn_sig.params.len() - i,
    {
        match sort_check(interner, &sorts, None, fn_sig.params[i].pred) {
            Some(Sort::Bool) => {},
            _ => {
                return Err(WfError::Param(i));
            },
        }
        i = i + 1;
    }
    let mut regions: FxHashMap<Name, bool> = fx_new();
    assert(regions@.dom() =~= Set::<Name>::empty());
    if let Some(i) = add_regions(&mut regions, &fn_sig.requires) {
        return Err(WfError::DuplicateRegion(i));
    }
    assert(regions@.dom() =~= region_names(fn_sig.requires@, fn_sig.requires@.len() as int));
    if let Some(i) = check_pairs(interner, &sorts, &regions, &fn_sig.requires) {
        return Err(WfError::Requires(i));
    }
    if let Some(i) = check_tys(interner, &sorts, &regions, &fn_sig.args) {
        return Err(WfError::Arg(i));
    }
    let _ = add_regions(&mut regions, &fn_sig.ensures);
    if !ty_wf(interner, &sorts, &regions, fn_sig.ret) {
        return Err(WfError::Ret);
    }
    if let Some(i) = check_pairs(interner, &sorts, &regions, &fn_sig.ensures) {
        return Err(WfError::Ensures(i));
    }
    Ok(())
}


proof fn lemma_no_ill_formed(
    nodes: Seq<ExprNode>,
    sorts: Map<Name, Sort>,
    regions: Set<Name>,
    tys: Seq<Ty>,
    i: int,
    k: int,
)
    requires
        0 <= i <= k < tys.len(),
        first_ill_formed(nodes, sorts, regions, tys, i) is None,
    ensures
        ty_wf_spec(nodes, sorts, regions, tys[k]),
    decreases k - i,
{
    if i < k {
        lemma_no_ill_formed(nodes, sorts, regions, tys, i + 1, k);
    }
}

proof fn lemma_no_ill_formed_pair(
    nodes: Seq<ExprNode>,
    sorts: Map<Name, Sort>,
    regions: Set<Name>,
    pairs: Seq<(Name, Ty)>,
    i: int,
    k: int,
)
    requires
        0 <= i <= k < pairs.len(),
        first_ill_formed_pair(nodes, sorts, regions, pairs, i) is None,
    ensures
        ty_wf_spec(nodes, sorts, regions, pairs[k].1),
    decreases k - i,
{
    if i < k {
        lemma_no_ill_formed_pair(nodes, sorts, regions, pairs, i + 1, k);
    }
}

proof fn lemma_no_ill_sorted_param(
    nodes: Seq<ExprNode>,
    sorts: Map<Name, Sort>,
    params: Seq<Param>,
    i: int,
    k: int,
)
    requires
        0 <= i <= k < params.len(),
        first_ill_sorted_param(nodes, sorts, params, i) is None,
    ensures
        sort_check_spec(nodes, sorts, None, params[k].pred) == Some(Sort::Bool),
    decreases k - i,
{
    if i < k {
        lemma_no_ill_sorted_param(nodes, sorts, params, i + 1, k);
    }
}

/// A signature that is well formed has every expression in the arena: it
/// can be checked against and called.
pub proof fn lemma_wf_sig_below(nodes: Seq<ExprNode>, sig: &FnSig)
    requires
        check_fn_sig_spec(nodes, sig) is Ok,
    ensures
        sig.exprs_below(nodes.len()),
{
    let sorts = param_sorts(sig.params@, sig.params@.len() as int);
    let before = region_names(sig.requires@, sig.requires@.len() as int);
    let after = before.union(region_names(sig.ensures@, sig.ensures@.len() as int));
    assert forall|i: int| 0 <= i < sig.params@.len() implies (#[trigger] sig.params@[i]).pred
        < nodes.len() by {
        lemma_no_ill_sorted_param(nodes, sorts, sig.params@, 0, i);
    }
    assert forall|i: int| 0 <= i < sig.requires@.len() implies (#[trigger] sig.requires@[i]).1.expr_below(
        nodes.len(),
    ) by {
        lemma_no_ill_formed_pair(nodes, sorts, before, sig.requires@, 0, i);
    }
    assert forall|i: int| 0 <= i < sig.args@.len() implies (#[trigger] sig.args@[i]).expr_below(
        nodes.len(),
    ) by {
        lemma_no_ill_formed(nodes, sorts, before, sig.args@, 0, i);
    }
    assert forall|i: int| 0 <= i < sig.ensures@.len() implies (#[trigger] sig.ensures@[i]).1.expr_below(
        nodes.len(),
    ) by {
        lemma_no_ill_formed_pair(nodes, sorts, after, sig.ensures@, 0, i);
    }
}

} // verus!
