//! The constraint tree and the cursor that builds it.
//!
//! The tree is a nest of scopes. A scope may bind a logical variable with a
//! hypothesis, or add a hypothesis without a binder (a guard); a head is a
//! goal that the hypotheses of the scopes around it must imply. Nodes are
//! kept in the order in which they were added, each with the index of its
//! parent, so that adding a node never moves another.

use vstd::prelude::*;
use crate::intern::{arena_extends, intern_spec, Interner};
use crate::result::{TyError, TyResult};
use crate::semantics::lemma_mentions_binder_later;
use crate::subst::{instantiate, instantiate_spec};
use crate::ty::{BaseTy, BinOp, ExprId, ExprNode, HoleId, Name, Sort, Ty};

verus! {

#[derive(Clone, Copy, Debug, PartialEq, Eq, Structural)]
pub enum NodeKind {
    /// A scope that binds nothing and assumes nothing.
    Scope,
    /// A scope that binds a variable of a sort and assumes a hypothesis.
    ForAll(Name, Sort, ExprId),
    /// A scope that assumes a hypothesis.
    Guard(ExprId),
    /// A goal.
    Head(ExprId),
}

#[derive(Clone, Copy, Debug, PartialEq, Eq, Structural)]
pub struct Node {
    /// The index of the scope that holds this node; the root holds itself.
    pub parent: usize,
    pub kind: NodeKind,
}

/// An insertion point: the scope that the next node goes under. A cursor is
/// a plain value, so a copy of it is an independent continuation.
#[derive(Clone, Copy, Debug, PartialEq, Eq, Structural)]
pub struct Cursor {
    pub node: usize,
}

/// The constraint tree as contracts see it.
pub struct TreeModel {
    pub nodes: Seq<Node>,
    /// The sort of every logical variable handed out so far; a variable is
    /// its index here.
    pub names: Seq<Sort>,
    /// The sort of every hole handed out so far; a hole is its index here.
    pub holes: Seq<Sort>,
}

impl NodeKind {
    pub open spec fn expr_below(self, n: nat) -> bool {
        match self {
            NodeKind::Scope => true,
            NodeKind::ForAll(_, _, p) => p < n,
            NodeKind::Guard(p) => p < n,
            NodeKind::Head(p) => p < n,
        }
    }
}

impl TreeModel {
    /// The tree that holds the root scope only.
    pub open spec fn initial() -> TreeModel {
        TreeModel {
            nodes: seq![Node { parent: 0, kind: NodeKind::Scope }],
            names: Seq::empty(),
            holes: Seq::empty(),
        }
    }

    /// The root is a scope, every other node hangs under an earlier node
    /// that is not a head.
    pub open spec fn wf(self) -> bool {
        &&& self.nodes.len() >= 1
        &&& self.nodes[0] == Node { parent: 0, kind: NodeKind::Scope }
        &&& forall|i: int|
            1 <= i < self.nodes.len() ==> (#[trigger] self.nodes[i]).parent < i && !(
            self.nodes[self.nodes[i].parent as int].kind is Head)
    }

    /// Every expression of the tree is a handle below `n`.
    pub open spec fn exprs_below(self, n: nat) -> bool {
        forall|i: int| 0 <= i < self.nodes.len() ==> (#[trigger] self.nodes[i]).kind.expr_below(n)
    }

    /// A cursor of this tree: it stands on a scope.
    pub open spec fn holds(self, c: Cursor) -> bool {
        c.node < self.nodes.len() && !(self.nodes[c.node as int].kind is Head)
    }

    /// This tree holds every node of `earlier` at the same index. A cursor
    /// of `earlier` is then a cursor of this tree.
    pub open spec fn extends(self, earlier: TreeModel) -> bool {
        &&& earlier.nodes.len() <= self.nodes.len()
        &&& forall|i: int| 0 <= i < earlier.nodes.len() ==> #[trigger] self.nodes[i] == earlier.nodes[i]
    }

    /// The tree with one more node under the cursor.
    pub open spec fn push(self, c: Cursor, kind: NodeKind) -> TreeModel {
        TreeModel { nodes: self.nodes.push(Node { parent: c.node, kind }), ..self }
    }

    /// The cursor on the node that `push` adds.
    pub open spec fn pushed(self) -> Cursor {
        Cursor { node: self.nodes.len() as usize }
    }

    /// The tree after a variable of the sort was handed out.
    pub open spec fn with_name(self, sort: Sort) -> TreeModel {
        TreeModel { names: self.names.push(sort), ..self }
    }

    /// The tree after a hole of the sort was handed out.
    pub open spec fn with_hole(self, sort: Sort) -> TreeModel {
        TreeModel { holes: self.holes.push(sort), ..self }
    }

    /// The hypotheses in force at a node, innermost first: those of the
    /// scopes from the node up to the root.
    pub open spec fn hypotheses(self, i: int) -> Seq<ExprId>
        decreases i,
    {
        if 0 < i < self.nodes.len() && self.nodes[i].parent < i {
            let rest = self.hypotheses(self.nodes[i].parent as int);
            match self.nodes[i].kind {
                NodeKind::ForAll(_, _, p) => seq![p] + rest,
                NodeKind::Guard(p) => seq![p] + rest,
                _ => rest,
            }
        } else {
            Seq::empty()
        }
    }
}

/// The hypotheses of a node do not change as the tree grows.
pub proof fn lemma_hypotheses_later(earlier: TreeModel, later: TreeModel, i: int)
    requires
        earlier.wf(),
        later.extends(earlier),
        0 <= i < earlier.nodes.len(),
    ensures
        later.hypotheses(i) == earlier.hypotheses(i),
    decreases i,
{
    if i > 0 {
        assert(later.nodes[i] == earlier.nodes[i]);
        assert(earlier.nodes[i].parent < i);
        lemma_hypotheses_later(earlier, later, earlier.nodes[i].parent as int);
    }
}

/// Scopes are independent. What is pushed under a cursor is in force for
/// what is pushed under it later, and for nothing else: the hypotheses of
/// the new node are its own, then those of the cursor, and every node of
/// the tree has the hypotheses that it had. So what is pushed through one
/// snapshot of a cursor is no hypothesis of what is pushed through
/// another.
pub proof fn law_push_is_scoped(tree: TreeModel, c: Cursor, kind: NodeKind)
    requires
        tree.wf(),
        tree.holds(c),
        tree.nodes.len() < usize::MAX,
    ensures
        tree.push(c, kind).wf(),
        tree.push(c, kind).hypotheses(tree.pushed().node as int) == (match kind {
            NodeKind::ForAll(_, _, p) => seq![p],
            NodeKind::Guard(p) => seq![p],
            _ => Seq::empty(),
        }) + tree.hypotheses(c.node as int),
        forall|i: int|
            0 <= i < tree.nodes.len() ==> #[trigger] tree.push(c, kind).hypotheses(i) == tree.hypotheses(i),
{
    let grown = tree.push(c, kind);
    assert(grown.wf()) by {
        assert forall|i: int| 1 <= i < grown.nodes.len() implies (#[trigger] grown.nodes[i]).parent < i && !(
        grown.nodes[grown.nodes[i].parent as int].kind is Head) by {
            if i < tree.nodes.len() {
                assert(grown.nodes[i] == tree.nodes[i]);
                assert(grown.nodes[tree.nodes[i].parent as int] == tree.nodes[tree.nodes[i].parent as int]);
            }
        }
    }
    assert forall|i: int| 0 <= i < tree.nodes.len() implies #[trigger] grown.hypotheses(i) == tree.hypotheses(
        i,
    ) by {
        lemma_hypotheses_later(tree, grown, i);
    }
    let k = tree.nodes.len() as int;
    assert(grown.nodes[k] == Node { parent: c.node, kind });
    assert(grown.hypotheses(c.node as int) == tree.hypotheses(c.node as int));
    assert(Seq::<ExprId>::empty() + tree.hypotheses(c.node as int) =~= tree.hypotheses(c.node as int));
}

/// Whether an expression mentions the implicit binder.
pub open spec fn mentions_binder_spec(nodes: Seq<ExprNode>, e: ExprId) -> bool
    decreases e,
{
    if e < nodes.len() {
        match nodes[e as int] {
            ExprNode::Bound => true,
            ExprNode::Hole(_, a) => a < e && mentions_binder_spec(nodes, a),
            ExprNode::UnaryOp(_, a) => a < e && mentions_binder_spec(nodes, a),
            ExprNode::BinaryOp(_, a, b) => a < e && b < e && (mentions_binder_spec(nodes, a)
                || mentions_binder_spec(nodes, b)),
            ExprNode::Cons(a, b) => a < e && b < e && (mentions_binder_spec(nodes, a)
                || mentions_binder_spec(nodes, b)),
            _ => false,
        }
    } else {
        false
    }
}

pub fn mentions_binder(interner: &Interner, e: ExprId) -> (r: bool)
    requires
        interner.wf(),
        e < interner@.len(),
    ensures
        r == mentions_binder_spec(interner@, e),
    decreases e,
{
    assert(interner@[e as int].children_below(e as nat));
    match interner.get(e) {
        ExprNode::Bound => true,
        ExprNode::Hole(_, a) => mentions_binder(interner, a),
        ExprNode::UnaryOp(_, a) => mentions_binder(interner, a),
        ExprNode::BinaryOp(_, a, b) => mentions_binder(interner, a) || mentions_binder(interner, b),
        ExprNode::Cons(a, b) => mentions_binder(interner, a) || mentions_binder(interner, b),
        _ => false,
    }
}

/// The value that a predicate pins down: `e` where the predicate says
/// "the value equals `e`" and `e` does not mention the value.
pub open spec fn pinned_spec(nodes: Seq<ExprNode>, p: ExprId) -> Option<ExprId> {
    if p < nodes.len() {
        match nodes[p as int] {
            ExprNode::BinaryOp(BinOp::Eq, a, b) => if a < p && b < p && nodes[a as int] == ExprNode::Bound
                && !mentions_binder_spec(nodes, b) {
                Some(b)
            } else {
                None
            },
            _ => None,
        }
    } else {
        None
    }
}

/// The value that a predicate pins down, if it pins one down.
pub fn pinned(interner: &Interner, p: ExprId) -> (r: Option<ExprId>)
    requires
        interner.wf(),
    ensures
        r == pinned_spec(interner@, p),
        r is Some ==> r->0 < p && p < interner@.len(),
{
    if p >= interner.len() {
        return None;
    }
    assert(interner@[p as int].children_below(p as nat));
    match interner.get(p) {
        ExprNode::BinaryOp(BinOp::Eq, a, b) => {
            match interner.get(a) {
                ExprNode::Bound => {
                    if mentions_binder(interner, b) {
                        None
                    } else {
                        Some(b)
                    }
                },
                _ => None,
            }
        },
        _ => None,
    }
}

/// The value that a type pins down, with the base type: what an
/// expression of that type is known to be equal to.
pub open spec fn value_of_spec(nodes: Seq<ExprNode>, ty: Ty) -> Option<(BaseTy, ExprId)> {
    match ty {
        Ty::Refine(b, p) => match pinned_spec(nodes, p) {
            Some(e) => Some((b, e)),
            None => None,
        },
        _ => None,
    }
}

pub fn value_of(interner: &Interner, ty: Ty) -> (r: Option<(BaseTy, ExprId)>)
    requires
        interner.wf(),
    ensures
        r == value_of_spec(interner@, ty),
        r is Some ==> (r->0).1 < interner@.len(),
{
    match ty {
        Ty::Refine(b, p) => match pinned(interner, p) {
            Some(e) => Some((b, e)),
            None => None,
        },
        _ => None,
    }
}

/// The type of the values of a base type that are equal to `e`: the
/// refinement by "the value equals `e`".
pub open spec fn exact_spec(nodes: Seq<ExprNode>, b: BaseTy, e: ExprId) -> (Seq<ExprNode>, Ty) {
    let (n1, v) = intern_spec(nodes, ExprNode::Bound);
    let (n2, p) = intern_spec(n1, ExprNode::BinaryOp(BinOp::Eq, v, e));
    (n2, Ty::Refine(b, p))
}

pub fn exact(interner: &mut Interner, b: BaseTy, e: ExprId) -> (ty: Ty)
    requires
        old(interner).wf(),
        e < old(interner)@.len(),
    ensures
        (final(interner)@, ty) == exact_spec(old(interner)@, b, e),
        final(interner).wf(),
        arena_extends(final(interner)@, old(interner)@),
        ty.expr_below(final(interner)@.len()),
        !mentions_binder_spec(old(interner)@, e) ==> value_of_spec(final(interner)@, ty) == Some((b, e)),
{
    let v = interner.intern(ExprNode::Bound);
    let p = interner.intern(ExprNode::BinaryOp(BinOp::Eq, v, e));
    proof {
        assert(interner@[p as int].children_below(p as nat));
        assert(interner@[v as int] == ExprNode::Bound);
        lemma_mentions_binder_later(old(interner)@, interner@, e);
    }
    Ty::Refine(b, p)
}

/// What `subtyping` does. For two refinements of one base type: where the
/// first pins a value down, the goal that the predicate of the second
/// holds of that value; where it does not, a scope that binds a fresh
/// variable and assumes the predicate of the first of it, with the goal
/// that the predicate of the second holds of it. For any other pair, a
/// shape mismatch and nothing added.
pub open spec fn subtyping_spec(nodes: Seq<ExprNode>, tree: TreeModel, c: Cursor, ty1: Ty, ty2: Ty) -> (
    Seq<ExprNode>,
    TreeModel,
    TyResult<()>,
) {
    match (ty1, ty2) {
        (Ty::Refine(b1, p1), Ty::Refine(b2, p2)) => if b1 == b2 {
            match pinned_spec(nodes, p1) {
                Some(e1) => {
                    let (n1, goal) = instantiate_spec(nodes, p2, e1);
                    (n1, tree.push(c, NodeKind::Head(goal)), Ok(()))
                },
                None => {
                    let x = tree.names.len() as usize;
                    let t1 = tree.with_name(b1.sort_spec());
                    let (n1, xe) = intern_spec(nodes, ExprNode::Free(x));
                    let (n2, hyp) = instantiate_spec(n1, p1, xe);
                    let (n3, goal) = instantiate_spec(n2, p2, xe);
                    let t2 = t1.push(c, NodeKind::ForAll(x, b1.sort_spec(), hyp));
                    (n3, t2.push(t1.pushed(), NodeKind::Head(goal)), Ok(()))
                },
            }
        } else {
            (nodes, tree, Err(TyError::ShapeMismatch { expected: ty1, found: ty2 }))
        },
        _ => (nodes, tree, Err(TyError::ShapeMismatch { expected: ty1, found: ty2 })),
    }
}

/// What `unpack` does: a refinement that pins no value down becomes the
/// refinement by "the value equals `x`" for a fresh variable `x`, which a
/// new scope under the cursor binds and assumes the predicate of. Any
/// other type stays, and so do tree and cursor.
pub open spec fn unpack_spec(nodes: Seq<ExprNode>, tree: TreeModel, c: Cursor, ty: Ty) -> (
    Seq<ExprNode>,
    TreeModel,
    Cursor,
    Ty,
) {
    match ty {
        Ty::Refine(b, p) => if pinned_spec(nodes, p) is Some {
            (nodes, tree, c, ty)
        } else {
            let x = tree.names.len() as usize;
            let t1 = tree.with_name(b.sort_spec());
            let (n1, xe) = intern_spec(nodes, ExprNode::Free(x));
            let (n2, hyp) = instantiate_spec(n1, p, xe);
            let (n3, named) = exact_spec(n2, b, xe);
            (n3, t1.push(c, NodeKind::ForAll(x, b.sort_spec(), hyp)), t1.pushed(), named)
        },
        _ => (nodes, tree, c, ty),
    }
}

pub struct ConstraintBuilder {
    nodes: Vec<Node>,
    names: Vec<Sort>,
    holes: Vec<Sort>,
}

impl View for ConstraintBuilder {
    type V = TreeModel;

    closed spec fn view(&self) -> TreeModel {
        TreeModel { nodes: self.nodes@, names: self.names@, holes: self.holes@ }
    }
}

impl ConstraintBuilder {
    pub open spec fn wf(&self) -> bool {
        self@.wf()
    }

    pub fn new() -> (b: ConstraintBuilder)
        ensures
            b@ == TreeModel::initial(),
            b.wf(),
    {
        let mut nodes: Vec<Node> = Vec::new();
        nodes.push(Node { parent: 0, kind: NodeKind::Scope });
        ConstraintBuilder { nodes, names: Vec::new(), holes: Vec::new() }
    }

    /// The cursor on the root scope.
    pub fn as_cursor(&self) -> (c: Cursor)
        ensures
            c == (Cursor { node: 0 }),
    {
        Cursor { node: 0 }
    }

    /// The number of nodes.
    pub fn len(&self) -> (n: usize)
        ensures
            n == self@.nodes.len(),
    {
        self.nodes.len()
    }

    /// The node at an index.
    pub fn node(&self, i: usize) -> (n: Node)
        requires
            i < self@.nodes.len(),
        ensures
            n == self@.nodes[i as int],
    {
        self.nodes[i]
    }

    /// The number of logical variables handed out.
    pub fn num_names(&self) -> (n: usize)
        ensures
            n == self@.names.len(),
    {
        self.names.len()
    }

    /// The sort of a logical variable.
    pub fn sort_of(&self, x: Name) -> (s: Sort)
        requires
            x < self@.names.len(),
        ensures
            s == self@.names[x as int],
    {
        self.names[x]
    }

    /// The sort of a hole.
    pub fn sort_of_hole(&self, k: HoleId) -> (s: Sort)
        requires
            k < self@.holes.len(),
        ensures
            s == self@.holes[k as int],
    {
        self.holes[k]
    }

    /// The number of holes handed out.
    pub fn num_holes(&self) -> (n: usize)
        ensures
            n == self@.holes.len(),
    {
        self.holes.len()
    }

    /// A logical variable that was not handed out before.
    pub fn fresh_name(&mut self, sort: Sort) -> (x: Name)
        ensures
            x == old(self)@.names.len(),
            final(self)@ == old(self)@.with_name(sort),
    {
        let x = self.names.len();
        self.names.push(sort);
        x
    }

    /// A hole that was not handed out before.
    pub fn fresh_hole(&mut self, sort: Sort) -> (k: HoleId)
        ensures
            k == old(self)@.holes.len(),
            final(self)@ == old(self)@.with_hole(sort),
    {
        let k = self.holes.len();
        self.holes.push(sort);
        k
    }

    fn push(&mut self, c: Cursor, kind: NodeKind) -> (r: Cursor)
        requires
            old(self).wf(),
            old(self)@.holds(c),
        ensures
            final(self)@ == old(self)@.push(c, kind),
            r == old(self)@.pushed(),
            final(self).wf(),
            !(kind is Head) ==> final(self)@.holds(r),
            final(self)@.holds(c),
    {
        let r = Cursor { node: self.nodes.len() };
        self.nodes.push(Node { parent: c.node, kind });
        r
    }
}

impl Cursor {
    /// Opens a scope that binds `name` of the sort and assumes `pred`; the
    /// cursor moves into it.
    pub fn push_forall(&mut self, builder: &mut ConstraintBuilder, name: Name, sort: Sort, pred: ExprId)
        requires
            old(builder).wf(),
            old(builder)@.holds(*old(self)),
        ensures
            final(builder)@ == old(builder)@.push(*old(self), NodeKind::ForAll(name, sort, pred)),
            *final(self) == old(builder)@.pushed(),
            final(builder).wf(),
            final(builder)@.holds(*final(self)),
    {
        *self = builder.push(*self, NodeKind::ForAll(name, sort, pred));
    }

    /// Opens a scope that binds and assumes nothing; the cursor moves into
    /// it.
    pub fn push_scope(&mut self, builder: &mut ConstraintBuilder)
        requires
            old(builder).wf(),
            old(builder)@.holds(*old(self)),
        ensures
            final(builder)@ == old(builder)@.push(*old(self), NodeKind::Scope),
            *final(self) == old(builder)@.pushed(),
            final(builder).wf(),
            final(builder)@.holds(*final(self)),
    {
        *self = builder.push(*self, NodeKind::Scope);
    }

    /// Opens a scope that assumes `pred`; the cursor moves into it.
    pub fn push_guard(&mut self, builder: &mut ConstraintBuilder, pred: ExprId)
        requires
            old(builder).wf(),
            old(builder)@.holds(*old(self)),
        ensures
            final(builder)@ == old(builder)@.push(*old(self), NodeKind::Guard(pred)),
            *final(self) == old(builder)@.pushed(),
            final(builder).wf(),
            final(builder)@.holds(*final(self)),
    {
        *self = builder.push(*self, NodeKind::Guard(pred));
    }

    /// Records the goal `pred` in the scope of the cursor, which stays.
    pub fn push_head(&self, builder: &mut ConstraintBuilder, pred: ExprId)
        requires
            old(builder).wf(),
            old(builder)@.holds(*self),
        ensures
            final(builder)@ == old(builder)@.push(*self, NodeKind::Head(pred)),
            final(builder).wf(),
            final(builder)@.holds(*self),
    {
        let _ = builder.push(*self, NodeKind::Head(pred));
    }

    /// An independent continuation of the cursor: what is pushed through
    /// the one is not in scope of what is pushed through the other.
    pub fn snapshot(&self) -> (c: Cursor)
        ensures
            c == *self,
    {
        *self
    }

    /// The subtyping judgment `ty1 <: ty2`.
    pub fn subtyping(&self, interner: &mut Interner, builder: &mut ConstraintBuilder, ty1: Ty, ty2: Ty) -> (r:
        TyResult<()>)
        requires
            old(interner).wf(),
            old(builder).wf(),
            old(builder)@.holds(*self),
            ty1.expr_below(old(interner)@.len()),
            ty2.expr_below(old(interner)@.len()),
        ensures
            (final(interner)@, final(builder)@, r) == subtyping_spec(
                old(interner)@,
                old(builder)@,
                *self,
                ty1,
                ty2,
            ),
            final(interner).wf(),
            final(builder).wf(),
            arena_extends(final(interner)@, old(interner)@),
            final(builder)@.holds(*self),
            final(builder)@.extends(old(builder)@),
            old(builder)@.exprs_below(old(interner)@.len()) ==> final(builder)@.exprs_below(
                final(interner)@.len(),
            ),
    {
        match (ty1, ty2) {
            (Ty::Refine(b1, p1), Ty::Refine(b2, p2)) => {
                if b1 == b2 {
                    match pinned(interner, p1) {
                        Some(e1) => {
                            let goal = instantiate(interner, p2, e1);
                            self.push_head(builder, goal);
                        },
                        None => {
                            let sort = b1.sort();
                            let x = builder.fresh_name(sort);
                            let xe = interner.intern(ExprNode::Free(x));
                            let hyp = instantiate(interner, p1, xe);
                            let goal = instantiate(interner, p2, xe);
                            let mut scope = self.snapshot();
                            scope.push_forall(builder, x, sort, hyp);
                            scope.push_head(builder, goal);
                        },
                    }
                    Ok(())
                } else {
                    Err(TyError::ShapeMismatch { expected: ty1, found: ty2 })
                }
            },
            _ => Err(TyError::ShapeMismatch { expected: ty1, found: ty2 }),
        }
    }

    /// Names the values of a type that pins no value down.
    pub fn unpack(&mut self, interner: &mut Interner, builder: &mut ConstraintBuilder, ty: Ty) -> (r: Ty)
        requires
            old(interner).wf(),
            old(builder).wf(),
            old(builder)@.holds(*old(self)),
            ty.expr_below(old(interner)@.len()),
        ensures
            (final(interner)@, final(builder)@, *final(self), r) == unpack_spec(
                old(interner)@,
                old(builder)@,
                *old(self),
                ty,
            ),
            final(interner).wf(),
            final(builder).wf(),
            arena_extends(final(interner)@, old(interner)@),
            final(builder)@.holds(*final(self)),
            final(builder)@.extends(old(builder)@),
            r.expr_below(final(interner)@.len()),
            old(builder)@.exprs_below(old(interner)@.len()) ==> final(builder)@.exprs_below(
                final(interner)@.len(),
            ),
    {
        match ty {
            Ty::Refine(b, p) => {
                if pinned(interner, p).is_some() {
                    ty
                } else {
                    let sort = b.sort();
                    let x = builder.fresh_name(sort);
                    let xe = interner.intern(ExprNode::Free(x));
                    let hyp = instantiate(interner, p, xe);
                    self.push_forall(builder, x, sort, hyp);
                    exact(interner, b, xe)
                }
            },
            _ => ty,
        }
    }
}

} // verus!
