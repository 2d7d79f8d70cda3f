//! The shape of a join point does not depend on the order in which the
//! environments reach it.

use vstd::prelude::*;
use crate::env::EnvModel;
use crate::disjoint_sets::union_repr;
use crate::inference::{
    absorb_refs, absorb_shape, absorb_shapes, env_locals_spec, env_regions_spec, link_cells, link_refs,
    template_spec, ShapeModel, ShapeTy,
};
use crate::constraint::TreeModel;
use crate::ty::{ExprNode, FnId, RegionId};

verus! {

/// What is gathered for a slot does not depend on the order of what the
/// environments hold there, and holding the same twice adds nothing.
pub proof fn lemma_absorb_shape(seen: Option<ShapeTy>, x: ShapeTy, y: ShapeTy)
    ensures
        absorb_shape(absorb_shape(seen, x), y) == absorb_shape(absorb_shape(seen, y), x),
        absorb_shape(absorb_shape(seen, x), x) == absorb_shape(seen, x),
{
}

pub proof fn lemma_absorb_shapes(shapes: Seq<Option<ShapeTy>>, xs: Seq<ShapeTy>, ys: Seq<ShapeTy>)
    ensures
        absorb_shapes(absorb_shapes(shapes, xs), ys) == absorb_shapes(absorb_shapes(shapes, ys), xs),
        absorb_shapes(absorb_shapes(shapes, xs), xs) == absorb_shapes(shapes, xs),
{
    let a = absorb_shapes(absorb_shapes(shapes, xs), ys);
    let b = absorb_shapes(absorb_shapes(shapes, ys), xs);
    assert(a.len() == b.len());
    assert forall|i: int| 0 <= i < a.len() implies a[i] == b[i] by {
        let seen = if i < shapes.len() {
            shapes[i]
        } else {
            None
        };
        if i < xs.len() && i < ys.len() {
            lemma_absorb_shape(seen, xs[i], ys[i]);
        }
    }
    assert(a =~= b);
    let c = absorb_shapes(absorb_shapes(shapes, xs), xs);
    let d = absorb_shapes(shapes, xs);
    assert forall|i: int| 0 <= i < c.len() implies c[i] == d[i] by {
        let seen = if i < shapes.len() {
            shapes[i]
        } else {
            None
        };
        if i < xs.len() {
            lemma_absorb_shape(seen, xs[i], xs[i]);
        }
    }
    assert(c =~= d);
}

pub proof fn lemma_absorb_refs(refs: Set<(usize, RegionId)>, xs: Seq<ShapeTy>, ys: Seq<ShapeTy>)
    ensures
        absorb_refs(absorb_refs(refs, xs), ys) == absorb_refs(absorb_refs(refs, ys), xs),
        absorb_refs(absorb_refs(refs, xs), xs) == absorb_refs(refs, xs),
{
    assert(absorb_refs(absorb_refs(refs, xs), ys) =~= absorb_refs(absorb_refs(refs, ys), xs));
    assert(absorb_refs(absorb_refs(refs, xs), xs) =~= absorb_refs(refs, xs));
}

/// The order in which two environments reach a join point makes no
/// difference to its shape, whatever the shape was before and whatever
/// the environments hold: the sets of regions and the template are the
/// same either way.
pub proof fn law_merge_order_independent(
    shape: ShapeModel,
    e1: EnvModel,
    e2: EnvModel,
    nodes: Seq<ExprNode>,
    tree: TreeModel,
    func: FnId,
)
    ensures
        shape.merge_with(e1).merge_with(e2) == shape.merge_with(e2).merge_with(e1),
        shape.merge_with(e1).merge_with(e2).sets() == shape.merge_with(e2).merge_with(e1).sets(),
        template_spec(nodes, tree, func, shape.merge_with(e1).merge_with(e2)) == template_spec(
            nodes,
            tree,
            func,
            shape.merge_with(e2).merge_with(e1),
        ),
{
    lemma_absorb_shapes(shape.locals, env_locals_spec(e1), env_locals_spec(e2));
    lemma_absorb_shapes(
        shape.regions,
        env_regions_spec(e1),
        env_regions_spec(e2),
    );
    lemma_absorb_refs(
        shape.local_refs,
        env_locals_spec(e1),
        env_locals_spec(e2),
    );
    lemma_absorb_refs(
        shape.region_refs,
        env_regions_spec(e1),
        env_regions_spec(e2),
    );
}

/// Which of two environments reaches a join point first makes no
/// difference to its shape.
pub proof fn law_first_arrival_is_no_other(e1: EnvModel, e2: EnvModel)
    ensures
        ShapeModel::from_env(e1).merge_with(e2) == ShapeModel::from_env(e2).merge_with(e1),
        ShapeModel::from_env(e1).merge_with(e2).sets() == ShapeModel::from_env(e2).merge_with(e1).sets(),
{
    law_merge_order_independent(ShapeModel::empty(), e1, e2, Seq::empty(), TreeModel::initial(), 0);
}

/// An environment that reaches a join point a second time changes
/// nothing.
pub proof fn law_merge_idempotent(shape: ShapeModel, env: EnvModel)
    ensures
        shape.merge_with(env).merge_with(env) == shape.merge_with(env),
        ShapeModel::from_env(env).merge_with(env) == ShapeModel::from_env(env),
{
    lemma_absorb_shapes(
        shape.locals,
        env_locals_spec(env),
        env_locals_spec(env),
    );
    lemma_absorb_shapes(
        shape.regions,
        env_regions_spec(env),
        env_regions_spec(env),
    );
    lemma_absorb_refs(
        shape.local_refs,
        env_locals_spec(env),
        env_locals_spec(env),
    );
    lemma_absorb_refs(
        shape.region_refs,
        env_regions_spec(env),
        env_regions_spec(env),
    );
    let empty = ShapeModel::empty();
    lemma_absorb_shapes(
        empty.locals,
        env_locals_spec(env),
        env_locals_spec(env),
    );
    lemma_absorb_shapes(
        empty.regions,
        env_regions_spec(env),
        env_regions_spec(env),
    );
    lemma_absorb_refs(
        empty.local_refs,
        env_locals_spec(env),
        env_locals_spec(env),
    );
    lemma_absorb_refs(
        empty.region_refs,
        env_regions_spec(env),
        env_regions_spec(env),
    );
}

/// Two regions are in one set.
pub open spec fn same_set(repr: Seq<usize>, x: int, y: int) -> bool {
    0 <= x < repr.len() && 0 <= y < repr.len() && repr[x] == repr[y]
}

/// Uniting two sets parts no set, and makes the two one.
pub proof fn lemma_union_keeps_sets(repr: Seq<usize>, a: int, b: int, x: int, y: int)
    requires
        0 <= a < repr.len(),
        0 <= b < repr.len(),
    ensures
        union_repr(repr, a, b).len() == repr.len(),
        same_set(union_repr(repr, a, b), a, b),
        same_set(repr, x, y) ==> same_set(union_repr(repr, a, b), x, y),
{
}

/// Uniting the regions that a slot refers to parts no set, and makes the
/// region `a` and every region that the slot refers to one set.
pub proof fn lemma_link_refs(repr: Seq<usize>, refs: Set<(usize, RegionId)>, k: usize, a: int, j: int, x: int, y: int)
    requires
        0 <= a < repr.len(),
        0 <= j <= repr.len(),
    ensures
        link_refs(repr, refs, k, a, j).len() == repr.len(),
        same_set(repr, x, y) ==> same_set(link_refs(repr, refs, k, a, j), x, y),
        0 <= x < j && refs.contains((k, x as usize)) ==> same_set(link_refs(repr, refs, k, a, j), a, x),
    decreases j,
{
    if j > 0 {
        lemma_link_refs(repr, refs, k, a, j - 1, x, y);
        lemma_link_refs(repr, refs, k, a, j - 1, a, x);
        let before = link_refs(repr, refs, k, a, j - 1);
        if refs.contains((k, (j - 1) as usize)) {
            lemma_union_keeps_sets(before, a, j - 1, x, y);
            lemma_union_keeps_sets(before, a, j - 1, a, x);
        }
    }
}

/// Uniting the regions that the first `k` slots refer to parts no set.
pub proof fn lemma_link_cells(
    repr: Seq<usize>,
    shapes: Seq<Option<ShapeTy>>,
    refs: Set<(usize, RegionId)>,
    k: int,
    x: int,
    y: int,
)
    ensures
        link_cells(repr, shapes, refs, k).len() == repr.len(),
        same_set(repr, x, y) ==> same_set(link_cells(repr, shapes, refs, k), x, y),
    decreases k,
{
    if 0 < k <= shapes.len() {
        lemma_link_cells(repr, shapes, refs, k - 1, x, y);
        let before = link_cells(repr, shapes, refs, k - 1);
        match shapes[k - 1] {
            Some(ShapeTy::MutRef(a)) => {
                if a < before.len() {
                    lemma_link_refs(before, refs, (k - 1) as usize, a as int, before.len() as int, x, y);
                }
            },
            _ => {},
        }
    }
}

/// The regions that a local refers to on one path or another are one
/// cell after the join, if the local holds a reference on every path:
/// each is in the set of the least of them.
pub proof fn law_referred_regions_are_one_cell(shape: ShapeModel, l: int, r: RegionId)
    requires
        shape.wf(),
        0 <= l < shape.locals.len(),
        shape.locals[l] is Some,
        shape.locals[l]->0 is MutRef,
        shape.locals[l]->0->MutRef_0 < shape.regions.len(),
        r < shape.regions.len(),
        shape.local_refs.contains((l as usize, r)),
    ensures
        same_set(shape.linked(), shape.locals[l]->0->MutRef_0 as int, r as int),
{
    let a = shape.locals[l]->0->MutRef_0 as int;
    let start = Seq::new(shape.regions.len(), |i: int| i as usize);
    let n = shape.locals.len() as int;
    let before = link_cells(start, shape.locals, shape.local_refs, l);
    lemma_link_cells(start, shape.locals, shape.local_refs, l, 0, 0);
    lemma_link_refs(before, shape.local_refs, l as usize, a, before.len() as int, r as int, r as int);
    let at = link_cells(start, shape.locals, shape.local_refs, l + 1);
    assert(same_set(at, a, r as int));
    lemma_later_cells(start, shape.locals, shape.local_refs, l + 1, n, a, r as int);
    let locals_done = link_cells(start, shape.locals, shape.local_refs, n);
    lemma_link_cells(locals_done, shape.regions, shape.region_refs, shape.regions.len() as int, a, r as int);
}

/// What is one set after the first `k` slots is one set after the first
/// `m`, where `m` is not less than `k`.
pub proof fn lemma_later_cells(
    repr: Seq<usize>,
    shapes: Seq<Option<ShapeTy>>,
    refs: Set<(usize, RegionId)>,
    k: int,
    m: int,
    x: int,
    y: int,
)
    requires
        0 <= k <= m <= shapes.len(),
        same_set(link_cells(repr, shapes, refs, k), x, y),
    ensures
        same_set(link_cells(repr, shapes, refs, m), x, y),
    decreases m - k,
{
    if k < m {
        lemma_later_cells(repr, shapes, refs, k, m - 1, x, y);
        lemma_link_cells(repr, shapes, refs, m - 1, 0, 0);
        let before = link_cells(repr, shapes, refs, m - 1);
        match shapes[m - 1] {
            Some(ShapeTy::MutRef(a)) => {
                if a < before.len() {
                    lemma_link_refs(before, refs, (m - 1) as usize, a as int, before.len() as int, x, y);
                }
            },
            _ => {},
        }
    }
}

} // verus!
