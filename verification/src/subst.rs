//! Substitution of logical names and region names.

use vstd::prelude::*;
use rustc_hash::FxHashMap;
use crate::fxmap::{fx_get, fx_insert, fx_new};
use crate::intern::{arena_extends, arena_wf, intern_spec, Interner};
use crate::ty::{ExprId, ExprNode, Name, RegionId, Ty};

verus! {

/// A substitution as contracts see it: what each logical name and each
/// region name is replaced by. A name that is not bound stays.
pub struct SubstModel {
    pub exprs: Map<Name, ExprId>,
    pub regions: Map<Name, RegionId>,
}

/// A mapping from logical names to expressions and from region names to
/// regions.
pub struct Subst {
    exprs: FxHashMap<Name, ExprId>,
    regions: FxHashMap<Name, RegionId>,
}

impl View for Subst {
    type V = SubstModel;

    closed spec fn view(&self) -> SubstModel {
        SubstModel { exprs: self.exprs@, regions: self.regions@ }
    }
}

/// Every expression that the map binds a name to is a handle below `n`.
pub open spec fn bindings_below(exprs: Map<Name, ExprId>, n: nat) -> bool {
    forall|x: Name| exprs.contains_key(x) ==> #[trigger] exprs[x] < n
}

/// Bindings that are in an arena are in every later arena.
pub proof fn lemma_bindings_below_later(exprs: Map<Name, ExprId>, n: nat, m: nat)
    requires
        bindings_below(exprs, n),
        n <= m,
    ensures
        bindings_below(exprs, m),
{
    assert forall|x: Name| exprs.contains_key(x) implies #[trigger] exprs[x] < m by {
        assert(exprs[x] < n);
    }
}

impl SubstModel {
    /// Every expression of the substitution is a handle below `n`.
    pub open spec fn exprs_below(self, n: nat) -> bool {
        bindings_below(self.exprs, n)
    }

    /// The substitution replaces every name that it binds by itself.
    pub open spec fn is_identity(self, nodes: Seq<ExprNode>) -> bool {
        &&& forall|x: Name| #[trigger]
            self.exprs.contains_key(x) ==> self.exprs[x] < nodes.len() && nodes[self.exprs[x] as int]
                == ExprNode::Free(x)
        &&& forall|r: Name| #[trigger] self.regions.contains_key(r) ==> self.regions[r] == r
    }
}

/// The expression `e` with every bound name replaced, and with the implicit
/// binder replaced by `bound` where one is given: the arena afterwards and
/// the handle of the result.
pub open spec fn subst_expr_spec(
    nodes: Seq<ExprNode>,
    exprs: Map<Name, ExprId>,
    bound: Option<ExprId>,
    e: ExprId,
) -> (Seq<ExprNode>, ExprId)
    decreases e,
{
    if e < nodes.len() {
        match nodes[e as int] {
            ExprNode::Bound => match bound {
                Some(b) => (nodes, b),
                None => (nodes, e),
            },
            ExprNode::Free(x) => if exprs.contains_key(x) {
                (nodes, exprs[x])
            } else {
                (nodes, e)
            },
            ExprNode::Constant(_) => (nodes, e),
            ExprNode::Nil => (nodes, e),
            ExprNode::Hole(k, a) => if a < e {
                let (n1, a1) = subst_expr_spec(nodes, exprs, bound, a);
                intern_spec(n1, ExprNode::Hole(k, a1))
            } else {
                (nodes, e)
            },
            ExprNode::UnaryOp(op, a) => if a < e {
                let (n1, a1) = subst_expr_spec(nodes, exprs, bound, a);
                intern_spec(n1, ExprNode::UnaryOp(op, a1))
            } else {
                (nodes, e)
            },
            ExprNode::BinaryOp(op, a, b) => if a < e && b < e {
                let (n1, a1) = subst_expr_spec(nodes, exprs, bound, a);
                let (n2, b1) = subst_expr_spec(n1, exprs, bound, b);
                intern_spec(n2, ExprNode::BinaryOp(op, a1, b1))
            } else {
                (nodes, e)
            },
            ExprNode::Cons(a, b) => if a < e && b < e {
                let (n1, a1) = subst_expr_spec(nodes, exprs, bound, a);
                let (n2, b1) = subst_expr_spec(n1, exprs, bound, b);
                intern_spec(n2, ExprNode::Cons(a1, b1))
            } else {
                (nodes, e)
            },
        }
    } else {
        (nodes, e)
    }
}

/// The type `ty` under a substitution.
pub open spec fn subst_ty_spec(nodes: Seq<ExprNode>, s: SubstModel, ty: Ty) -> (Seq<ExprNode>, Ty) {
    match ty {
        Ty::Refine(b, e) => {
            let (n1, e1) = subst_expr_spec(nodes, s.exprs, None, e);
            (n1, Ty::Refine(b, e1))
        },
        Ty::MutRef(r) => if s.regions.contains_key(r) {
            (nodes, Ty::MutRef(s.regions[r]))
        } else {
            (nodes, ty)
        },
        _ => (nodes, ty),
    }
}

/// Replaces names and the implicit binder in `e`.
pub fn subst_expr_in(
    interner: &mut Interner,
    exprs: &FxHashMap<Name, ExprId>,
    bound: Option<ExprId>,
    e: ExprId,
) -> (r: ExprId)
    requires
        old(interner).wf(),
        e < old(interner)@.len(),
        bindings_below(exprs@, old(interner)@.len()),
        bound is Some ==> bound->0 < old(interner)@.len(),
    ensures
        (final(interner)@, r) == subst_expr_spec(old(interner)@, exprs@, bound, e),
        final(interner).wf(),
        arena_extends(final(interner)@, old(interner)@),
        r < final(interner)@.len(),
    decreases e,
{
    match interner.get(e) {
        ExprNode::Bound => match bound {
            Some(b) => b,
            None => e,
        },
        ExprNode::Free(x) => match fx_get(exprs, x) {
            Some(r) => *r,
            None => e,
        },
        ExprNode::Constant(_) => e,
        ExprNode::Nil => e,
        ExprNode::Hole(k, a) => {
            let a1 = subst_expr_in(interner, exprs, bound, a);
            interner.intern(ExprNode::Hole(k, a1))
        },
        ExprNode::UnaryOp(op, a) => {
            let a1 = subst_expr_in(interner, exprs, bound, a);
            interner.intern(ExprNode::UnaryOp(op, a1))
        },
        ExprNode::BinaryOp(op, a, b) => {
            let a1 = subst_expr_in(interner, exprs, bound, a);
            let b1 = subst_expr_in(interner, exprs, bound, b);
            interner.intern(ExprNode::BinaryOp(op, a1, b1))
        },
        ExprNode::Cons(a, b) => {
            let a1 = subst_expr_in(interner, exprs, bound, a);
            let b1 = subst_expr_in(interner, exprs, bound, b);
            interner.intern(ExprNode::Cons(a1, b1))
        },
    }
}

impl Subst {
    pub fn new() -> (s: Subst)
        ensures
            s@.exprs == Map::<Name, ExprId>::empty(),
            s@.regions == Map::<Name, RegionId>::empty(),
    {
        Subst { exprs: fx_new(), regions: fx_new() }
    }

    /// Binds a logical name to an expression.
    pub fn insert_expr(&mut self, name: Name, e: ExprId)
        ensures
            final(self)@ == (SubstModel { exprs: old(self)@.exprs.insert(name, e), ..old(self)@ }),
    {
        let _ = fx_insert(&mut self.exprs, name, e);
    }

    /// Binds a region name to a region.
    pub fn insert_region(&mut self, name: Name, r: RegionId)
        ensures
            final(self)@ == (SubstModel {
                regions: old(self)@.regions.insert(name, r),
                ..old(self)@
            }),
    {
        let _ = fx_insert(&mut self.regions, name, r);
    }

    /// What a logical name is bound to.
    pub fn lookup_expr(&self, name: Name) -> (r: Option<ExprId>)
        ensures
            r == (if self@.exprs.contains_key(name) {
                Some(self@.exprs[name])
            } else {
                None
            }),
    {
        match fx_get(&self.exprs, name) {
            Some(e) => Some(*e),
            None => None,
        }
    }

    /// What a region name is bound to.
    pub fn lookup_region(&self, name: Name) -> (r: Option<RegionId>)
        ensures
            r == (if self@.regions.contains_key(name) {
                Some(self@.regions[name])
            } else {
                None
            }),
    {
        match fx_get(&self.regions, name) {
            Some(e) => Some(*e),
            None => None,
        }
    }

    /// The expression `e` with every bound name replaced.
    pub fn subst_expr(&self, interner: &mut Interner, e: ExprId) -> (r: ExprId)
        requires
            old(interner).wf(),
            e < old(interner)@.len(),
            self@.exprs_below(old(interner)@.len()),
        ensures
            (final(interner)@, r) == subst_expr_spec(old(interner)@, self@.exprs, None, e),
            final(interner).wf(),
            arena_extends(final(interner)@, old(interner)@),
            r < final(interner)@.len(),
    {
        subst_expr_in(interner, &self.exprs, None, e)
    }

    /// The type `ty` with every bound name and region name replaced.
    pub fn subst_ty(&self, interner: &mut Interner, ty: Ty) -> (r: Ty)
        requires
            old(interner).wf(),
            ty.expr_below(old(interner)@.len()),
            self@.exprs_below(old(interner)@.len()),
        ensures
            (final(interner)@, r) == subst_ty_spec(old(interner)@, self@, ty),
            final(interner).wf(),
            arena_extends(final(interner)@, old(interner)@),
            r.expr_below(final(interner)@.len()),
    {
        match ty {
            Ty::Refine(b, e) => {
                let e1 = subst_expr_in(interner, &self.exprs, None, e);
                Ty::Refine(b, e1)
            },
            Ty::MutRef(r) => match fx_get(&self.regions, r) {
                Some(r1) => Ty::MutRef(*r1),
                None => ty,
            },
            _ => ty,
        }
    }
}

/// The predicate `pred` said of the value `value`: `pred` with the implicit
/// binder replaced by `value`.
pub open spec fn instantiate_spec(nodes: Seq<ExprNode>, pred: ExprId, value: ExprId) -> (
    Seq<ExprNode>,
    ExprId,
) {
    subst_expr_spec(nodes, Map::empty(), Some(value), pred)
}

pub fn instantiate(interner: &mut Interner, pred: ExprId, value: ExprId) -> (r: ExprId)
    requires
        old(interner).wf(),
        pred < old(interner)@.len(),
        value < old(interner)@.len(),
    ensures
        (final(interner)@, r) == instantiate_spec(old(interner)@, pred, value),
        final(interner).wf(),
        arena_extends(final(interner)@, old(interner)@),
        r < final(interner)@.len(),
{
    let empty: FxHashMap<Name, ExprId> = fx_new();
    subst_expr_in(interner, &empty, Some(value), pred)
}

/// Replacing names by themselves changes nothing: neither the expression
/// nor the arena.
pub proof fn lemma_subst_expr_identity(nodes: Seq<ExprNode>, s: SubstModel, e: ExprId)
    requires
        arena_wf(nodes),
        s.is_identity(nodes),
        e < nodes.len(),
    ensures
        subst_expr_spec(nodes, s.exprs, None, e) == (nodes, e),
    decreases e,
{
    assert(nodes[e as int].children_below(e as nat));
    match nodes[e as int] {
        ExprNode::Free(x) => {
            if s.exprs.contains_key(x) {
                assert(nodes[s.exprs[x] as int] == nodes[e as int]);
            }
        },
        ExprNode::Hole(k, a) => {
            lemma_subst_expr_identity(nodes, s, a);
            assert(nodes.contains(nodes[e as int]));
        },
        ExprNode::UnaryOp(op, a) => {
            lemma_subst_expr_identity(nodes, s, a);
            assert(nodes.contains(nodes[e as int]));
        },
        ExprNode::BinaryOp(op, a, b) => {
            lemma_subst_expr_identity(nodes, s, a);
            lemma_subst_expr_identity(nodes, s, b);
            assert(nodes.contains(nodes[e as int]));
        },
        ExprNode::Cons(a, b) => {
            lemma_subst_expr_identity(nodes, s, a);
            lemma_subst_expr_identity(nodes, s, b);
            assert(nodes.contains(nodes[e as int]));
        },
        _ => {},
    }
}

/// The identity law of substitution: under a substitution that replaces
/// every name by itself, a type of a well-formed arena is its own image,
/// once and twice over, and the arena stays as it is.
pub proof fn law_subst_identity(nodes: Seq<ExprNode>, s: SubstModel, ty: Ty)
    requires
        arena_wf(nodes),
        s.is_identity(nodes),
        ty.expr_below(nodes.len()),
    ensures
        subst_ty_spec(nodes, s, ty) == (nodes, ty),
        subst_ty_spec(subst_ty_spec(nodes, s, ty).0, s, subst_ty_spec(nodes, s, ty).1) == (
            nodes,
            ty,
        ),
{
    match ty {
        Ty::Refine(b, e) => {
            lemma_subst_expr_identity(nodes, s, e);
        },
        _ => {},
    }
}

} // verus!
