//! Shapes: what the environments that flow into a join point have in
//! common, with every predicate left out.
//!
//! A shape gathers, for each local and each region, what every
//! environment that reached the join point holds there, and every region
//! that one of them refers to from there. What is gathered does not
//! depend on the order in which the environments arrive. Only when the
//! template is asked for are regions united: the regions that a slot
//! refers to on one path or another are one cell after the join, if the
//! slot holds a reference on every path. They are merged into one set, and
//! the representative of the set stands for the cell.

use vstd::prelude::*;
use vstd::seq_lib::lemma_seq_contains_after_push;
use crate::constraint::{ConstraintBuilder, TreeModel};
use crate::disjoint_sets::{union_repr, DisjointSetsMap, SetsModel};
use crate::env::{Env, EnvModel, Slot};
use crate::intern::{arena_extends, intern_spec, Interner};
use crate::ty::{BaseTy, ExprNode, FnId, RegionId, Ty};

verus! {

/// A type without its predicate.
#[derive(Clone, Copy, Debug, PartialEq, Eq, Structural)]
pub enum ShapeTy {
    Refine(BaseTy),
    MutRef(RegionId),
    Uninit,
    Func(FnId),
}

/// The shape of a type.
pub open spec fn erase_spec(ty: Ty) -> ShapeTy {
    match ty {
        Ty::Refine(b, _) => ShapeTy::Refine(b),
        Ty::MutRef(r) => ShapeTy::MutRef(r),
        Ty::Uninit => ShapeTy::Uninit,
        Ty::Func(f) => ShapeTy::Func(f),
    }
}

pub fn erase(ty: Ty) -> (s: ShapeTy)
    ensures
        s == erase_spec(ty),
{
    match ty {
        Ty::Refine(b, _) => ShapeTy::Refine(b),
        Ty::MutRef(r) => ShapeTy::MutRef(r),
        Ty::Uninit => ShapeTy::Uninit,
        Ty::Func(f) => ShapeTy::Func(f),
    }
}

/// What two shapes have in common: the shape itself where they agree, a
/// reference to the representative where both refer into one set, and a
/// slot without a live value where they differ.
pub open spec fn unify_repr(repr: Seq<usize>, x: ShapeTy, y: ShapeTy) -> ShapeTy {
    match (x, y) {
        (ShapeTy::Refine(b1), ShapeTy::Refine(b2)) => if b1 == b2 {
            x
        } else {
            ShapeTy::Uninit
        },
        (ShapeTy::MutRef(r1), ShapeTy::MutRef(r2)) => if r1 < repr.len() && r2 < repr.len()
            && repr[r1 as int] == repr[r2 as int] {
            ShapeTy::MutRef(repr[r1 as int])
        } else {
            ShapeTy::Uninit
        },
        (ShapeTy::Func(f), ShapeTy::Func(g)) => if f == g {
            x
        } else {
            ShapeTy::Uninit
        },
        _ => ShapeTy::Uninit,
    }
}

pub open spec fn unify_spec(sets: SetsModel<ShapeTy>, x: ShapeTy, y: ShapeTy) -> ShapeTy {
    unify_repr(sets.repr, x, y)
}

pub fn unify(sets: &DisjointSetsMap<ShapeTy>, x: ShapeTy, y: ShapeTy) -> (s: ShapeTy)
    requires
        sets.wf(),
    ensures
        s == unify_spec(sets@, x, y),
{
    match (x, y) {
        (ShapeTy::Refine(b1), ShapeTy::Refine(b2)) => if b1 == b2 {
            x
        } else {
            ShapeTy::Uninit
        },
        (ShapeTy::MutRef(r1), ShapeTy::MutRef(r2)) => {
            if r1 < sets.len() && r2 < sets.len() {
                let a = sets.find(r1);
                if a == sets.find(r2) {
                    ShapeTy::MutRef(a)
                } else {
                    ShapeTy::Uninit
                }
            } else {
                ShapeTy::Uninit
            }
        },
        (ShapeTy::Func(f), ShapeTy::Func(g)) => if f == g {
            x
        } else {
            ShapeTy::Uninit
        },
        _ => ShapeTy::Uninit,
    }
}

/// Merging payloads does not depend on order or grouping.
pub proof fn law_unify_commutative_associative(
    sets: SetsModel<ShapeTy>,
    x: ShapeTy,
    y: ShapeTy,
    z: ShapeTy,
)
    requires
        sets.wf(),
    ensures
        unify_spec(sets, x, y) == unify_spec(sets, y, x),
        unify_spec(sets, unify_spec(sets, x, y), z) == unify_spec(sets, x, unify_spec(sets, y, z)),
        unify_spec(sets, unify_spec(sets, x, y), y) == unify_spec(sets, x, y),
{
    match (x, y) {
        (ShapeTy::MutRef(r1), ShapeTy::MutRef(r2)) => {
            if r1 < sets.len() && r2 < sets.len() {
                assert(sets.repr[sets.repr[r1 as int] as int] == sets.repr[r1 as int]);
                assert(sets.repr[sets.repr[r2 as int] as int] == sets.repr[r2 as int]);
            }
        },
        _ => {},
    }
    match (y, z) {
        (ShapeTy::MutRef(r2), ShapeTy::MutRef(r3)) => {
            if r2 < sets.len() && r3 < sets.len() {
                assert(sets.repr[sets.repr[r2 as int] as int] == sets.repr[r2 as int]);
            }
        },
        _ => {},
    }
}

/// What two shapes of one slot have in common before regions are united:
/// the shape itself where they agree, a reference where both are
/// references (to the lesser region, for definiteness), and a slot
/// without a live value where they differ.
pub open spec fn meet_spec(x: ShapeTy, y: ShapeTy) -> ShapeTy {
    match (x, y) {
        (ShapeTy::Refine(b1), ShapeTy::Refine(b2)) => if b1 == b2 {
            x
        } else {
            ShapeTy::Uninit
        },
        (ShapeTy::MutRef(r1), ShapeTy::MutRef(r2)) => if r1 <= r2 {
            x
        } else {
            y
        },
        (ShapeTy::Func(f), ShapeTy::Func(g)) => if f == g {
            x
        } else {
            ShapeTy::Uninit
        },
        _ => ShapeTy::Uninit,
    }
}

pub fn meet(x: ShapeTy, y: ShapeTy) -> (s: ShapeTy)
    ensures
        s == meet_spec(x, y),
{
    match (x, y) {
        (ShapeTy::Refine(b1), ShapeTy::Refine(b2)) => if b1 == b2 {
            x
        } else {
            ShapeTy::Uninit
        },
        (ShapeTy::MutRef(r1), ShapeTy::MutRef(r2)) => if r1 <= r2 {
            x
        } else {
            y
        },
        (ShapeTy::Func(f), ShapeTy::Func(g)) => if f == g {
            x
        } else {
            ShapeTy::Uninit
        },
        _ => ShapeTy::Uninit,
    }
}

/// The shape of a type in an environment of `n` regions: a reference to
/// a region that the environment lacks counts as no live value.
pub open spec fn sound_spec(ty: Ty, n: nat) -> ShapeTy {
    match ty {
        Ty::MutRef(r) => if r < n {
            ShapeTy::MutRef(r)
        } else {
            ShapeTy::Uninit
        },
        _ => erase_spec(ty),
    }
}

/// The shapes of the locals of an environment.
pub open spec fn env_locals_spec(env: EnvModel) -> Seq<ShapeTy> {
    Seq::new(env.variables.len(), |l: int| sound_spec(env.slot_ty(Slot::Local(l as usize)), env.regions.len()))
}

/// The shapes of the regions of an environment.
pub open spec fn env_regions_spec(env: EnvModel) -> Seq<ShapeTy> {
    Seq::new(env.regions.len(), |r: int| sound_spec(env.regions[r], env.regions.len()))
}

/// What is gathered for a slot when one more environment holds `y`
/// there.
pub open spec fn absorb_shape(seen: Option<ShapeTy>, y: ShapeTy) -> Option<ShapeTy> {
    Some(
        match seen {
            None => y,
            Some(x) => meet_spec(x, y),
        },
    )
}

/// What is gathered for each slot when one more environment holds `tys`
/// in its slots. A slot that no environment had before is added.
pub open spec fn absorb_shapes(shapes: Seq<Option<ShapeTy>>, tys: Seq<ShapeTy>) -> Seq<Option<ShapeTy>> {
    Seq::new(
        if shapes.len() >= tys.len() {
            shapes.len()
        } else {
            tys.len()
        },
        |i: int|
            {
                let seen = if i < shapes.len() {
                    shapes[i]
                } else {
                    None
                };
                if i < tys.len() {
                    absorb_shape(seen, tys[i])
                } else {
                    seen
                }
            },
    )
}

/// The references gathered when one more environment holds `tys` in its
/// slots: the pair of a slot and a region stands for a reference from the
/// slot to the region on some path.
pub open spec fn absorb_refs(refs: Set<(usize, RegionId)>, tys: Seq<ShapeTy>) -> Set<(usize, RegionId)> {
    Set::new(
        |p: (usize, RegionId)| refs.contains(p) || (p.0 < tys.len() && tys[p.0 as int] == ShapeTy::MutRef(p.1)),
    )
}

/// The pairs of a list.
pub open spec fn pairs(list: Seq<(usize, RegionId)>) -> Set<(usize, RegionId)> {
    Set::new(|p: (usize, RegionId)| list.contains(p))
}

/// The representatives after every region that the slot `k` refers to on
/// some path, among the first `j` regions, was united with the region
/// `a`.
pub open spec fn link_refs(repr: Seq<usize>, refs: Set<(usize, RegionId)>, k: usize, a: int, j: int) -> Seq<
    usize,
>
    decreases j,
{
    if j <= 0 {
        repr
    } else {
        let rp = link_refs(repr, refs, k, a, j - 1);
        if refs.contains((k, (j - 1) as usize)) {
            union_repr(rp, a, j - 1)
        } else {
            rp
        }
    }
}

/// The representatives after the regions that the slot `k` refers to
/// were united, if the slot holds a reference on every path.
pub open spec fn link_cell(
    repr: Seq<usize>,
    shapes: Seq<Option<ShapeTy>>,
    refs: Set<(usize, RegionId)>,
    k: int,
) -> Seq<usize> {
    match shapes[k] {
        Some(ShapeTy::MutRef(a)) => if a < repr.len() {
            link_refs(repr, refs, k as usize, a as int, repr.len() as int)
        } else {
            repr
        },
        _ => repr,
    }
}

/// The representatives after the regions that each of the first `k`
/// slots refers to were united.
pub open spec fn link_cells(
    repr: Seq<usize>,
    shapes: Seq<Option<ShapeTy>>,
    refs: Set<(usize, RegionId)>,
    k: int,
) -> Seq<usize>
    decreases k,
{
    if k <= 0 || k > shapes.len() {
        repr
    } else {
        link_cell(link_cells(repr, shapes, refs, k - 1), shapes, refs, k - 1)
    }
}

/// What a slot holds once regions are united: a reference is one to the
/// representative.
pub open spec fn resolve_shape(repr: Seq<usize>, seen: Option<ShapeTy>) -> ShapeTy {
    match seen {
        Some(ShapeTy::MutRef(a)) => if a < repr.len() {
            ShapeTy::MutRef(repr[a as int])
        } else {
            ShapeTy::Uninit
        },
        Some(s) => s,
        None => ShapeTy::Uninit,
    }
}

/// What the first `k` regions hold, gathered at the representative of
/// each: what the members of a set have in common.
pub open spec fn gather(repr: Seq<usize>, regions: Seq<Option<ShapeTy>>, k: int) -> Seq<Option<ShapeTy>>
    decreases k,
{
    if k <= 0 || k > regions.len() || k > repr.len() {
        Seq::new(repr.len(), |i: int| None)
    } else {
        let acc = gather(repr, regions, k - 1);
        let r = repr[k - 1] as int;
        let y = resolve_shape(repr, regions[k - 1]);
        acc.update(
            r,
            Some(
                match acc[r] {
                    None => y,
                    Some(x) => unify_repr(repr, x, y),
                },
            ),
        )
    }
}

/// What a set holds: nothing live, where nothing was gathered for it.
pub open spec fn held_spec(held: Option<ShapeTy>) -> ShapeTy {
    match held {
        Some(s) => s,
        None => ShapeTy::Uninit,
    }
}

/// A shape as contracts see it: what was gathered for each local and
/// each region, and the references from each.
pub struct ShapeModel {
    pub locals: Seq<Option<ShapeTy>>,
    pub local_refs: Set<(usize, RegionId)>,
    pub regions: Seq<Option<ShapeTy>>,
    pub region_refs: Set<(usize, RegionId)>,
}

impl ShapeModel {
    pub open spec fn wf(self) -> bool {
        self.locals.len() <= usize::MAX && self.regions.len() <= usize::MAX
    }

    /// The shape that no environment has reached.
    pub open spec fn empty() -> ShapeModel {
        ShapeModel {
            locals: Seq::empty(),
            local_refs: Set::empty(),
            regions: Seq::empty(),
            region_refs: Set::empty(),
        }
    }

    /// The shape after an environment was merged in.
    pub open spec fn merge_with(self, env: EnvModel) -> ShapeModel {
        ShapeModel {
            locals: absorb_shapes(self.locals, env_locals_spec(env)),
            local_refs: absorb_refs(self.local_refs, env_locals_spec(env)),
            regions: absorb_shapes(self.regions, env_regions_spec(env)),
            region_refs: absorb_refs(self.region_refs, env_regions_spec(env)),
        }
    }

    /// The shape that one environment has reached.
    pub open spec fn from_env(env: EnvModel) -> ShapeModel {
        ShapeModel::empty().merge_with(env)
    }

    /// The representative of each region: every region alone at first;
    /// then, for each local in turn and for each region in turn, the
    /// regions that it refers to united.
    pub open spec fn linked(self) -> Seq<usize> {
        link_cells(
            link_cells(
                Seq::new(self.regions.len(), |r: int| r as usize),
                self.locals,
                self.local_refs,
                self.locals.len() as int,
            ),
            self.regions,
            self.region_refs,
            self.regions.len() as int,
        )
    }

    /// The sets of regions, each with what its members have in common.
    pub open spec fn sets(self) -> SetsModel<ShapeTy> {
        let repr = self.linked();
        let held = gather(repr, self.regions, self.regions.len() as int);
        SetsModel {
            repr,
            payload: Seq::new(
                repr.len(),
                |r: int|
                    if repr[r] == r {
                        held_spec(held[r])
                    } else {
                        ShapeTy::Uninit
                    },
            ),
        }
    }

    /// What each local holds once regions are united.
    pub open spec fn local_shapes(self) -> Seq<ShapeTy> {
        Seq::new(self.locals.len(), |l: int| resolve_shape(self.linked(), self.locals[l]))
    }

    /// The slot of the template that stands for a slot of an incoming
    /// environment: the same local, the representative of a region.
    pub open spec fn find_slot(self, s: Slot) -> Option<Slot> {
        match s {
            Slot::Local(l) => if l < self.locals.len() {
                Some(s)
            } else {
                None
            },
            Slot::Region(r) => if r < self.regions.len() {
                Some(Slot::Region(self.linked()[r as int]))
            } else {
                None
            },
        }
    }
}

/// What the template holds for each region: the payload of the set at
/// its representative, nothing at the other members.
pub open spec fn region_shapes_spec(sets: SetsModel<ShapeTy>) -> Seq<ShapeTy> {
    Seq::new(
        sets.len(),
        |r: int|
            if sets.repr[r] == r {
                sets.payload[r]
            } else {
                ShapeTy::Uninit
            },
    )
}

/// The type that a template holds for a shape: a base type refined by a
/// fresh hole said of the value, a reference to the representative of the
/// region.
pub open spec fn realize_spec(nodes: Seq<ExprNode>, tree: TreeModel, sets: SetsModel<ShapeTy>, s: ShapeTy) -> (
    Seq<ExprNode>,
    TreeModel,
    Ty,
) {
    match s {
        ShapeTy::Refine(b) => {
            let (n0, v) = intern_spec(nodes, ExprNode::Bound);
            let (n1, e) = intern_spec(n0, ExprNode::Hole(tree.holes.len() as usize, v));
            (n1, tree.with_hole(b.sort_spec()), Ty::Refine(b, e))
        },
        ShapeTy::MutRef(r) => (
            nodes,
            tree,
            if r < sets.len() {
                Ty::MutRef(sets.repr[r as int])
            } else {
                Ty::Uninit
            },
        ),
        ShapeTy::Uninit => (nodes, tree, Ty::Uninit),
        ShapeTy::Func(f) => (nodes, tree, Ty::Func(f)),
    }
}

/// The types that a template holds for the first `n` of some shapes.
pub open spec fn realize_first(
    nodes: Seq<ExprNode>,
    tree: TreeModel,
    sets: SetsModel<ShapeTy>,
    shapes: Seq<ShapeTy>,
    n: int,
) -> (Seq<ExprNode>, TreeModel, Seq<Ty>)
    decreases n,
{
    if n <= 0 || n > shapes.len() {
        (nodes, tree, Seq::empty())
    } else {
        let (n1, t1, tys) = realize_first(nodes, tree, sets, shapes, n - 1);
        let (n2, t2, ty) = realize_spec(n1, t1, sets, shapes[n - 1]);
        (n2, t2, tys.push(ty))
    }
}

/// The template of a shape: an environment with a fresh hole wherever the
/// shape has a base type.
pub open spec fn template_spec(nodes: Seq<ExprNode>, tree: TreeModel, func: FnId, shape: ShapeModel) -> (
    Seq<ExprNode>,
    TreeModel,
    EnvModel,
) {
    let sets = shape.sets();
    let (n1, t1, locals) = realize_first(nodes, tree, sets, shape.local_shapes(), shape.locals.len() as int);
    let (n2, t2, regions) = realize_first(n1, t1, sets, region_shapes_spec(sets), sets.len() as int);
    (n2, t2, EnvModel::from_slots(func, locals, regions))
}

pub struct Shape {
    locals: Vec<Option<ShapeTy>>,
    local_refs: Vec<(usize, RegionId)>,
    regions: Vec<Option<ShapeTy>>,
    region_refs: Vec<(usize, RegionId)>,
}

impl View for Shape {
    type V = ShapeModel;

    closed spec fn view(&self) -> ShapeModel {
        ShapeModel {
            locals: self.locals@,
            local_refs: pairs(self.local_refs@),
            regions: self.regions@,
            region_refs: pairs(self.region_refs@),
        }
    }
}

fn realize(
    interner: &mut Interner,
    builder: &mut ConstraintBuilder,
    sets: &DisjointSetsMap<ShapeTy>,
    s: ShapeTy,
) -> (ty: Ty)
    requires
        old(interner).wf(),
        sets.wf(),
    ensures
        (final(interner)@, final(builder)@, ty) == realize_spec(old(interner)@, old(builder)@, sets@, s),
        final(interner).wf(),
        arena_extends(final(interner)@, old(interner)@),
        ty.expr_below(final(interner)@.len()),
        final(builder)@.nodes == old(builder)@.nodes,
{
    match s {
        ShapeTy::Refine(b) => {
            let k = builder.fresh_hole(b.sort());
            let v = interner.intern(ExprNode::Bound);
            let e = interner.intern(ExprNode::Hole(k, v));
            Ty::Refine(b, e)
        },
        ShapeTy::MutRef(r) => {
            if r < sets.len() {
                Ty::MutRef(sets.find(r))
            } else {
                Ty::Uninit
            }
        },
        ShapeTy::Uninit => Ty::Uninit,
        ShapeTy::Func(f) => Ty::Func(f),
    }
}

fn realize_all(
    interner: &mut Interner,
    builder: &mut ConstraintBuilder,
    sets: &DisjointSetsMap<ShapeTy>,
    shapes: &Vec<ShapeTy>,
) -> (tys: Vec<Ty>)
    requires
        old(interner).wf(),
        sets.wf(),
    ensures
        (final(interner)@, final(builder)@, tys@) == realize_first(
            old(interner)@,
            old(builder)@,
            sets@,
            shapes@,
            shapes@.len() as int,
        ),
        final(interner).wf(),
        arena_extends(final(interner)@, old(interner)@),
        forall|i: int| 0 <= i < tys@.len() ==> (#[trigger] tys@[i]).expr_below(final(interner)@.len()),
        final(builder)@.nodes == old(builder)@.nodes,
{
    let mut tys: Vec<Ty> = Vec::new();
    let mut i: usize = 0;
    while i < shapes.len()
        invariant
            i <= shapes.len(),
            interner.wf(),
            sets.wf(),
            (interner@, builder@, tys@) == realize_first(
                old(interner)@,
                old(builder)@,
                sets@,
                shapes@,
                i as int,
            ),
            arena_extends(interner@, old(interner)@),
            forall|k: int| 0 <= k < tys@.len() ==> (#[trigger] tys@[k]).expr_below(interner@.len()),
            builder@.nodes == old(builder)@.nodes,
        decreases shapes.len() - i,
    {
        let ty = realize(interner, builder, sets, shapes[i]);
        tys.push(ty);
        i = i + 1;
    }
    tys
}

/// The shape of a type in an environment of `n` regions.
pub fn sound(ty: Ty, n: usize) -> (s: ShapeTy)
    ensures
        s == sound_spec(ty, n as nat),
{
    match ty {
        Ty::MutRef(r) => if r < n {
            ShapeTy::MutRef(r)
        } else {
            ShapeTy::Uninit
        },
        _ => erase(ty),
    }
}

fn env_locals(env: &Env) -> (tys: Vec<ShapeTy>)
    requires
        env.wf(),
    ensures
        tys@ == env_locals_spec(env@),
{
    let mut tys: Vec<ShapeTy> = Vec::new();
    let mut l: usize = 0;
    while l < env.num_locals()
        invariant
            env.wf(),
            l <= env@.variables.len(),
            tys@ == env_locals_spec(env@).subrange(0, l as int),
        decreases env@.variables.len() - l,
    {
        match env.lookup_local(l) {
            Some(ty) => {
                tys.push(sound(ty, env.num_regions()));
            },
            None => {},
        }
        l = l + 1;
        assert(tys@ =~= env_locals_spec(env@).subrange(0, l as int));
    }
    assert(tys@ =~= env_locals_spec(env@));
    tys
}

fn env_regions(env: &Env) -> (tys: Vec<ShapeTy>)
    ensures
        tys@ == env_regions_spec(env@),
{
    let mut tys: Vec<ShapeTy> = Vec::new();
    let mut r: usize = 0;
    while r < env.num_regions()
        invariant
            r <= env@.regions.len(),
            tys@ == env_regions_spec(env@).subrange(0, r as int),
        decreases env@.regions.len() - r,
    {
        match env.lookup_region(r) {
            Some(ty) => {
                tys.push(sound(ty, env.num_regions()));
            },
            None => {},
        }
        r = r + 1;
        assert(tys@ =~= env_regions_spec(env@).subrange(0, r as int));
    }
    assert(tys@ =~= env_regions_spec(env@));
    tys
}

fn absorb(shapes: &mut Vec<Option<ShapeTy>>, refs: &mut Vec<(usize, RegionId)>, tys: &Vec<ShapeTy>)
    ensures
        final(shapes)@ == absorb_shapes(old(shapes)@, tys@),
        pairs(final(refs)@) == absorb_refs(pairs(old(refs)@), tys@),
{
    let mut i: usize = 0;
    while i < tys.len()
        invariant
            i <= tys.len(),
            shapes@.len() == if old(shapes)@.len() >= i {
                old(shapes)@.len()
            } else {
                i as nat
            },
            forall|k: int|
                0 <= k < shapes@.len() ==> #[trigger] shapes@[k] == if k < i {
                    absorb_shapes(old(shapes)@, tys@)[k]
                } else {
                    old(shapes)@[k]
                },
            forall|p: (usize, RegionId)| #[trigger]
                refs@.contains(p) <==> old(refs)@.contains(p) || (p.0 < i && tys@[p.0 as int] == ShapeTy::MutRef(
                    p.1,
                )),
        decreases tys.len() - i,
    {
        let y = tys[i];
        if i < shapes.len() {
            let merged = match shapes[i] {
                None => y,
                Some(x) => meet(x, y),
            };
            shapes.set(i, Some(merged));
        } else {
            shapes.push(Some(y));
        }
        match y {
            ShapeTy::MutRef(r) => {
                let ghost before = refs@;
                refs.push((i, r));
                assert forall|p: (usize, RegionId)| #[trigger]
                    refs@.contains(p) <==> before.contains(p) || p == (i, r) by {
                    lemma_seq_contains_after_push(before, (i, r), p);
                }
            },
            _ => {},
        }
        i = i + 1;
    }
    assert(shapes@ =~= absorb_shapes(old(shapes)@, tys@));
    assert(pairs(refs@) =~= absorb_refs(pairs(old(refs)@), tys@));
}

/// Whether a list has a pair.
fn has_pair(list: &Vec<(usize, RegionId)>, k: usize, j: RegionId) -> (r: bool)
    ensures
        r == pairs(list@).contains((k, j)),
{
    let mut i: usize = 0;
    while i < list.len()
        invariant
            i <= list.len(),
            forall|m: int| 0 <= m < i ==> list@[m] != (k, j),
        decreases list.len() - i,
    {
        let p = list[i];
        if p.0 == k && p.1 == j {
            return true;
        }
        i = i + 1;
    }
    false
}

/// Unites, for each slot in turn, the regions that it refers to.
fn link(sets: &mut DisjointSetsMap<ShapeTy>, shapes: &Vec<Option<ShapeTy>>, refs: &Vec<(usize, RegionId)>)
    requires
        old(sets).wf(),
        forall|i: int| 0 <= i < old(sets)@.payload.len() ==> old(sets)@.payload[i] == ShapeTy::Uninit,
    ensures
        final(sets).wf(),
        final(sets)@.repr == link_cells(old(sets)@.repr, shapes@, pairs(refs@), shapes@.len() as int),
        final(sets)@.repr.len() == old(sets)@.repr.len(),
        forall|i: int| 0 <= i < final(sets)@.payload.len() ==> final(sets)@.payload[i] == ShapeTy::Uninit,
{
    let n = sets.len();
    let mut k: usize = 0;
    while k < shapes.len()
        invariant
            k <= shapes.len(),
            sets.wf(),
            sets@.repr.len() == n,
            n == old(sets)@.repr.len(),
            sets@.repr == link_cells(old(sets)@.repr, shapes@, pairs(refs@), k as int),
            forall|i: int| 0 <= i < sets@.payload.len() ==> sets@.payload[i] == ShapeTy::Uninit,
        decreases shapes.len() - k,
    {
        let ghost start = sets@.repr;
        match shapes[k] {
            Some(ShapeTy::MutRef(a)) => {
                if a < n {
                    let mut j: usize = 0;
                    while j < n
                        invariant
                            j <= n,
                            a < n,
                            sets.wf(),
                            sets@.repr.len() == n,
                            start.len() == n,
                            sets@.repr == link_refs(start, pairs(refs@), k, a as int, j as int),
                            forall|i: int| 0 <= i < sets@.payload.len() ==> sets@.payload[i] == ShapeTy::Uninit,
                        decreases n - j,
                    {
                        if has_pair(refs, k, j) {
                            sets.union(a, j, ShapeTy::Uninit);
                        }
                        j = j + 1;
                    }
                }
            },
            _ => {},
        }
        k = k + 1;
    }
}

/// What a slot holds once regions are united.
fn resolve_one(sets: &DisjointSetsMap<ShapeTy>, seen: Option<ShapeTy>) -> (s: ShapeTy)
    requires
        sets.wf(),
    ensures
        s == resolve_shape(sets@.repr, seen),
{
    match seen {
        Some(ShapeTy::MutRef(a)) => if a < sets.len() {
            ShapeTy::MutRef(sets.find(a))
        } else {
            ShapeTy::Uninit
        },
        Some(s) => s,
        None => ShapeTy::Uninit,
    }
}

impl Shape {
    pub open spec fn wf(&self) -> bool {
        self@.wf()
    }

    /// The shape that no environment has reached.
    pub fn empty() -> (s: Shape)
        ensures
            s@ == ShapeModel::empty(),
            s.wf(),
    {
        let s = Shape { locals: Vec::new(), local_refs: Vec::new(), regions: Vec::new(), region_refs: Vec::new() };
        assert(s@.local_refs =~= Set::empty());
        assert(s@.region_refs =~= Set::empty());
        s
    }

    /// The shape of an environment.
    pub fn from_env(env: &Env) -> (s: Shape)
        requires
            env.wf(),
        ensures
            s@ == ShapeModel::from_env(env@),
            s.wf(),
    {
        let mut s = Shape::empty();
        s.merge_with(env);
        s
    }

    /// Merges an environment into the shape.
    pub fn merge_with(&mut self, env: &Env)
        requires
            env.wf(),
        ensures
            final(self)@ == old(self)@.merge_with(env@),
            final(self).wf(),
    {
        let locals = env_locals(env);
        let regions = env_regions(env);
        assert(locals.len() <= usize::MAX && regions.len() <= usize::MAX);
        assert(self.locals.len() <= usize::MAX && self.regions.len() <= usize::MAX);
        absorb(&mut self.locals, &mut self.local_refs, &locals);
        absorb(&mut self.regions, &mut self.region_refs, &regions);
    }

    /// The sets of regions of the shape.
    pub fn resolve(&self) -> (sets: DisjointSetsMap<ShapeTy>)
        ensures
            sets@ == self@.sets(),
            sets.wf(),
            sets@.len() == self@.regions.len(),
    {
        let n = self.regions.len();
        let mut sets: DisjointSetsMap<ShapeTy> = DisjointSetsMap::new();
        let mut r: usize = 0;
        while r < n
            invariant
                r <= n,
                sets.wf(),
                sets@.repr == Seq::new(r as nat, |i: int| i as usize),
                forall|i: int| 0 <= i < sets@.payload.len() ==> sets@.payload[i] == ShapeTy::Uninit,
            decreases n - r,
        {
            let _ = sets.push(ShapeTy::Uninit);
            r = r + 1;
            assert(sets@.repr =~= Seq::new(r as nat, |i: int| i as usize));
        }
        link(&mut sets, &self.locals, &self.local_refs);
        link(&mut sets, &self.regions, &self.region_refs);
        let ghost repr = sets@.repr;
        assert(repr == self@.linked());
        let mut held: Vec<Option<ShapeTy>> = Vec::new();
        let mut i: usize = 0;
        while i < n
            invariant
                i <= n,
                held@ == Seq::new(i as nat, |k: int| None::<ShapeTy>),
            decreases n - i,
        {
            held.push(None);
            i = i + 1;
            assert(held@ =~= Seq::new(i as nat, |k: int| None::<ShapeTy>));
        }
        let mut m: usize = 0;
        while m < n
            invariant
                m <= n,
                n == self.regions@.len(),
                sets.wf(),
                sets@.repr == repr,
                repr.len() == n,
                held@.len() == n,
                held@ == gather(repr, self.regions@, m as int),
            decreases n - m,
        {
            let rep = sets.find(m);
            let y = resolve_one(&sets, self.regions[m]);
            let merged = match held[rep] {
                None => y,
                Some(x) => unify(&sets, x, y),
            };
            held.set(rep, Some(merged));
            m = m + 1;
        }
        let mut q: usize = 0;
        while q < n
            invariant
                q <= n,
                sets.wf(),
                sets@.repr == repr,
                repr.len() == n,
                held@.len() == n,
                forall|k: int|
                    0 <= k < n ==> #[trigger] sets@.payload[k] == if k < q && repr[k] == k {
                        held_spec(held@[k])
                    } else {
                        ShapeTy::Uninit
                    },
            decreases n - q,
        {
            if sets.find(q) == q {
                let p = match held[q] {
                    Some(s) => s,
                    None => ShapeTy::Uninit,
                };
                sets.set(q, p);
            }
            q = q + 1;
        }
        assert(sets@.payload =~= self@.sets().payload);
        sets
    }

    /// The slot of the template that stands for a slot of an incoming
    /// environment.
    pub fn find_slot(&self, s: Slot) -> (r: Option<Slot>)
        ensures
            r == self@.find_slot(s),
    {
        match s {
            Slot::Local(l) => if l < self.locals.len() {
                Some(s)
            } else {
                None
            },
            Slot::Region(r) => if r < self.regions.len() {
                let sets = self.resolve();
                Some(Slot::Region(sets.find(r)))
            } else {
                None
            },
        }
    }

    /// The template of the shape: the environment in which a join point is
    /// checked.
    pub fn template(&self, interner: &mut Interner, builder: &mut ConstraintBuilder, func_id: FnId) -> (env:
        Env)
        requires
            old(interner).wf(),
        ensures
            (final(interner)@, final(builder)@, env@) == template_spec(
                old(interner)@,
                old(builder)@,
                func_id,
                self@,
            ),
            final(interner).wf(),
            arena_extends(final(interner)@, old(interner)@),
            env.wf(),
            env@.exprs_below(final(interner)@.len()),
            final(builder)@.nodes == old(builder)@.nodes,
    {
        let sets = self.resolve();
        let mut held: Vec<ShapeTy> = Vec::new();
        let mut l: usize = 0;
        while l < self.locals.len()
            invariant
                l <= self.locals@.len(),
                sets.wf(),
                sets@ == self@.sets(),
                held@ == self@.local_shapes().subrange(0, l as int),
            decreases self.locals@.len() - l,
        {
            held.push(resolve_one(&sets, self.locals[l]));
            l = l + 1;
            assert(held@ =~= self@.local_shapes().subrange(0, l as int));
        }
        assert(held@ =~= self@.local_shapes());
        let locals = realize_all(interner, builder, &sets, &held);
        let mut shapes: Vec<ShapeTy> = Vec::new();
        let mut r: usize = 0;
        while r < sets.len()
            invariant
                sets.wf(),
                r <= sets@.len(),
                shapes@ == region_shapes_spec(sets@).subrange(0, r as int),
            decreases sets@.len() - r,
        {
            if sets.find(r) == r {
                shapes.push(sets.get(r));
            } else {
                shapes.push(ShapeTy::Uninit);
            }
            r = r + 1;
            assert(shapes@ =~= region_shapes_spec(sets@).subrange(0, r as int));
        }
        assert(shapes@ =~= region_shapes_spec(sets@));
        let regions = realize_all(interner, builder, &sets, &shapes);
        Env::from_slots(func_id, locals, regions)
    }
}

} // verus!
