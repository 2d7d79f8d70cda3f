use liquid_rust::constraint::ConstraintBuilder;
use liquid_rust::disjoint_sets::DisjointSetsMap;
use liquid_rust::env::{Env, Slot};
use liquid_rust::inference::{erase, meet, sound, unify, Shape, ShapeTy};
use liquid_rust::intern::Interner;
use liquid_rust::ty::{BaseTy, Constant, ExprNode, IntTy, Sign, Sort, Ty};

const I32: BaseTy = BaseTy::Int(IntTy::I32);

fn sets(n: usize) -> DisjointSetsMap<u8> {
    let mut s = DisjointSetsMap::new();
    for i in 0..n {
        assert_eq!(s.push(i as u8), i);
    }
    s
}

fn partition(s: &DisjointSetsMap<u8>) -> Vec<Vec<bool>> {
    (0..s.len()).map(|i| (0..s.len()).map(|j| s.find(i) == s.find(j)).collect()).collect()
}

#[test]
fn every_element_starts_alone() {
    let s = sets(4);
    assert_eq!(s.len(), 4);
    for i in 0..4 {
        assert_eq!(s.find(i), i);
        assert_eq!(s.get(i), i as u8);
    }
}

#[test]
fn union_merges_two_sets_and_no_other() {
    let mut s = sets(5);
    s.union(1, 3, 40);
    assert_eq!(s.find(1), s.find(3));
    assert_eq!(s.find(1), 1);
    assert_eq!(s.get(1), 40);
    assert_eq!(s.get(3), 40);
    for i in [0, 2, 4] {
        assert_eq!(s.find(i), i);
        assert_eq!(s.get(i), i as u8);
    }
    s.union(3, 4, 50);
    assert_eq!(s.find(4), 1);
    assert_eq!(s.get(1), 50);
    s.union(4, 0, 60);
    // The merged set is represented by the least of its representatives.
    assert_eq!((s.find(0), s.find(1), s.find(3), s.find(4)), (0, 0, 0, 0));
    assert_eq!(s.find(2), 2);
    assert_eq!(s.get(3), 60);
    s.set(4, 61);
    assert_eq!(s.get(0), 61);
    assert_eq!(s.get(2), 2);
    assert_eq!(s.push(9), 5);
    assert_eq!(s.find(5), 5);
}

#[test]
fn order_of_merges_does_not_change_the_partition() {
    let merges = [(0, 1), (2, 3), (1, 2), (4, 5), (5, 0), (6, 6)];
    for (a, b) in merges {
        for (c, d) in merges {
            let mut one = sets(7);
            one.union(a, b, 1);
            one.union(c, d, 2);
            let mut other = sets(7);
            other.union(c, d, 2);
            other.union(a, b, 1);
            assert_eq!(partition(&one), partition(&other));
            for i in 0..7 {
                assert_eq!(one.find(i), other.find(i));
            }
        }
    }
    let mut forward = sets(7);
    let mut backward = sets(7);
    for (a, b) in merges {
        forward.union(a, b, 0);
    }
    for (a, b) in merges.iter().rev() {
        backward.union(*a, *b, 0);
    }
    assert_eq!(partition(&forward), partition(&backward));
    assert_eq!(
        (0..7).map(|i| forward.find(i)).collect::<Vec<_>>(),
        (0..7).map(|i| backward.find(i)).collect::<Vec<_>>()
    );
    assert_eq!((0..7).map(|i| forward.find(i)).collect::<Vec<_>>(), vec![0, 0, 0, 0, 0, 0, 6]);
}

#[test]
fn merge_made_twice_changes_nothing() {
    let mut s = sets(4);
    s.union(2, 0, 7);
    let once: Vec<(usize, u8)> = (0..4).map(|i| (s.find(i), s.get(i))).collect();
    s.union(2, 0, 7);
    let twice: Vec<(usize, u8)> = (0..4).map(|i| (s.find(i), s.get(i))).collect();
    assert_eq!(once, twice);
    s.union(1, 1, 1);
    assert_eq!(s.find(1), 1);
    assert_eq!(s.get(1), 1);
}

#[test]
fn shapes_forget_predicates() {
    assert_eq!(erase(Ty::Refine(I32, 17)), ShapeTy::Refine(I32));
    assert_eq!(erase(Ty::MutRef(2)), ShapeTy::MutRef(2));
    assert_eq!(erase(Ty::Uninit), ShapeTy::Uninit);
    assert_eq!(erase(Ty::Func(3)), ShapeTy::Func(3));
}

#[test]
fn unification_keeps_what_both_have() {
    let mut regions: DisjointSetsMap<ShapeTy> = DisjointSetsMap::new();
    for _ in 0..3 {
        regions.push(ShapeTy::Uninit);
    }
    regions.union(0, 1, ShapeTy::Uninit);
    let int = ShapeTy::Refine(I32);
    let boolean = ShapeTy::Refine(BaseTy::Bool);
    assert_eq!(unify(&regions, int, int), int);
    assert_eq!(unify(&regions, int, boolean), ShapeTy::Uninit);
    assert_eq!(unify(&regions, int, ShapeTy::Uninit), ShapeTy::Uninit);
    assert_eq!(unify(&regions, ShapeTy::Uninit, ShapeTy::Uninit), ShapeTy::Uninit);
    assert_eq!(unify(&regions, ShapeTy::Func(1), ShapeTy::Func(1)), ShapeTy::Func(1));
    assert_eq!(unify(&regions, ShapeTy::Func(1), ShapeTy::Func(2)), ShapeTy::Uninit);
    assert_eq!(unify(&regions, ShapeTy::MutRef(1), ShapeTy::MutRef(0)), ShapeTy::MutRef(0));
    assert_eq!(unify(&regions, ShapeTy::MutRef(1), ShapeTy::MutRef(1)), ShapeTy::MutRef(0));
    assert_eq!(unify(&regions, ShapeTy::MutRef(1), ShapeTy::MutRef(2)), ShapeTy::Uninit);
    assert_eq!(unify(&regions, ShapeTy::MutRef(2), ShapeTy::MutRef(7)), ShapeTy::Uninit);
    assert_eq!(unify(&regions, ShapeTy::MutRef(2), int), ShapeTy::Uninit);
    let all = [int, boolean, ShapeTy::Uninit, ShapeTy::Func(1), ShapeTy::MutRef(0), ShapeTy::MutRef(1), ShapeTy::MutRef(2)];
    for x in all {
        for y in all {
            assert_eq!(unify(&regions, x, y), unify(&regions, y, x));
            for z in all {
                assert_eq!(
                    unify(&regions, unify(&regions, x, y), z),
                    unify(&regions, x, unify(&regions, y, z))
                );
            }
        }
    }
}

fn number(interner: &mut Interner, n: u128) -> Ty {
    Ty::Refine(I32, interner.intern(ExprNode::Constant(Constant::Int(Sign::Positive, n))))
}

#[test]
fn regions_referred_to_from_one_local_become_one_cell() {
    let mut interner = Interner::new();
    let one = number(&mut interner, 1);
    let two = number(&mut interner, 2);
    let truth = Ty::Refine(BaseTy::Bool, interner.intern(ExprNode::Constant(Constant::Bool(true))));
    // On one path the local refers to region 0, on the other to region 1.
    let left = Env::from_slots(0, vec![Ty::MutRef(0), one, one, Ty::Uninit], vec![one, two]);
    let right = Env::from_slots(0, vec![Ty::MutRef(1), two, truth, two], vec![one, two, truth]);
    let mut shape = Shape::from_env(&left);
    assert_eq!(shape.find_slot(Slot::Region(0)), Some(Slot::Region(0)));
    assert_eq!(shape.find_slot(Slot::Region(1)), Some(Slot::Region(1)));
    assert_eq!(shape.find_slot(Slot::Region(2)), None);
    assert_eq!(shape.find_slot(Slot::Local(3)), Some(Slot::Local(3)));
    assert_eq!(shape.find_slot(Slot::Local(4)), None);
    shape.merge_with(&right);
    assert_eq!(shape.find_slot(Slot::Region(0)), Some(Slot::Region(0)));
    assert_eq!(shape.find_slot(Slot::Region(1)), Some(Slot::Region(0)));
    assert_eq!(shape.find_slot(Slot::Region(2)), Some(Slot::Region(2)));
    let mut builder = ConstraintBuilder::new();
    let template = shape.template(&mut interner, &mut builder, 7);
    assert_eq!(template.func_id(), 7);
    let hole = |interner: &Interner, k: usize| {
        let v = interner.find(ExprNode::Bound).unwrap();
        interner.find(ExprNode::Hole(k, v)).unwrap()
    };
    assert_eq!(
        template.iter(),
        vec![
            (Slot::Local(0), Ty::MutRef(0)),
            (Slot::Local(1), Ty::Refine(I32, hole(&interner, 0))),
            // The paths disagree on the base type and on whether there is a
            // value at all: the template has none.
            (Slot::Local(2), Ty::Uninit),
            (Slot::Local(3), Ty::Uninit),
            (Slot::Region(0), Ty::Refine(I32, hole(&interner, 1))),
            (Slot::Region(1), Ty::Uninit),
            (Slot::Region(2), Ty::Refine(BaseTy::Bool, hole(&interner, 2))),
        ]
    );
    assert_eq!(builder.num_holes(), 3);
    assert_eq!(builder.len(), 1);
    // Merging in the other order gives every region the same
    // representative.
    let mut other = Shape::from_env(&right);
    other.merge_with(&left);
    for r in 0..3 {
        assert_eq!(shape.find_slot(Slot::Region(r)), other.find_slot(Slot::Region(r)));
    }
    // Merging an environment a second time changes no set.
    let before: Vec<Option<Slot>> = (0..3).map(|r| shape.find_slot(Slot::Region(r))).collect();
    shape.merge_with(&right);
    let after: Vec<Option<Slot>> = (0..3).map(|r| shape.find_slot(Slot::Region(r))).collect();
    assert_eq!(before, after);
    assert_eq!(builder.sort_of_hole(2), Sort::Bool);
}

#[test]
fn predecessors_can_be_visited_in_any_order() {
    let mut interner = Interner::new();
    let one = number(&mut interner, 1);
    let truth = Ty::Refine(BaseTy::Bool, interner.intern(ExprNode::Constant(Constant::Bool(true))));
    // Three environments of one function: two locals that hold references
    // on every path, one that holds a number on every path, and one on
    // which the paths differ.
    let first = Env::from_slots(0, vec![Ty::MutRef(0), Ty::MutRef(1), one, one], vec![one, one]);
    let second = Env::from_slots(0, vec![Ty::MutRef(2), Ty::MutRef(1), one, truth], vec![one, one, one]);
    let third =
        Env::from_slots(0, vec![Ty::MutRef(3), Ty::MutRef(0), one, Ty::Uninit], vec![one, one, one, truth]);
    let envs = [&first, &second, &third];
    let orders = [[0, 1, 2], [0, 2, 1], [1, 0, 2], [1, 2, 0], [2, 0, 1], [2, 1, 0]];
    let outcome = |order: [usize; 3]| {
        let mut shape = Shape::from_env(envs[order[0]]);
        shape.merge_with(envs[order[1]]);
        shape.merge_with(envs[order[2]]);
        let regions: Vec<Option<Slot>> = (0..4).map(|r| shape.find_slot(Slot::Region(r))).collect();
        let mut builder = ConstraintBuilder::new();
        let locals: Vec<ShapeTy> =
            shape.template(&mut Interner::new(), &mut builder, 0).iter()[..4].iter().map(|s| erase(s.1)).collect();
        (regions, locals)
    };
    let expected = (
        // Local 0 joins regions 0, 2 and 3; local 1 joins regions 1 and
        // 0: all are one cell.
        vec![Some(Slot::Region(0)); 4],
        vec![ShapeTy::MutRef(0), ShapeTy::MutRef(0), ShapeTy::Refine(I32), ShapeTy::Uninit],
    );
    for order in orders {
        assert_eq!(outcome(order), expected);
    }
}

#[test]
fn a_reference_on_some_paths_only_unites_nothing() {
    let mut interner = Interner::new();
    let one = number(&mut interner, 1);
    // The local refers to region 0 on one path and to region 1 on another,
    // and holds a number on a third.
    let first = Env::from_slots(0, vec![Ty::MutRef(0)], vec![one, one]);
    let second = Env::from_slots(0, vec![one], vec![one, one]);
    let third = Env::from_slots(0, vec![Ty::MutRef(1)], vec![one, one]);
    let envs = [&first, &second, &third];
    for order in [[0, 1, 2], [0, 2, 1], [1, 0, 2], [1, 2, 0], [2, 0, 1], [2, 1, 0]] {
        let mut shape = Shape::from_env(envs[order[0]]);
        shape.merge_with(envs[order[1]]);
        shape.merge_with(envs[order[2]]);
        assert_eq!(shape.find_slot(Slot::Region(0)), Some(Slot::Region(0)));
        assert_eq!(shape.find_slot(Slot::Region(1)), Some(Slot::Region(1)));
        let mut builder = ConstraintBuilder::new();
        let template = shape.template(&mut Interner::new(), &mut builder, 0);
        assert_eq!(template.lookup_local(0), Some(Ty::Uninit));
        assert_eq!(builder.num_holes(), 2);
    }
}

#[test]
fn the_shape_before_any_arrival() {
    let shape = Shape::empty();
    assert_eq!(shape.find_slot(Slot::Local(0)), None);
    assert_eq!(shape.find_slot(Slot::Region(0)), None);
    assert_eq!(shape.resolve().len(), 0);
    let mut builder = ConstraintBuilder::new();
    let template = shape.template(&mut Interner::new(), &mut builder, 3);
    assert_eq!(template.iter(), vec![]);
}

#[test]
fn what_two_shapes_of_a_slot_have_in_common() {
    let int = ShapeTy::Refine(I32);
    assert_eq!(meet(int, int), int);
    assert_eq!(meet(int, ShapeTy::Refine(BaseTy::Bool)), ShapeTy::Uninit);
    assert_eq!(meet(ShapeTy::MutRef(4), ShapeTy::MutRef(2)), ShapeTy::MutRef(2));
    assert_eq!(meet(ShapeTy::MutRef(2), ShapeTy::MutRef(4)), ShapeTy::MutRef(2));
    assert_eq!(meet(ShapeTy::MutRef(2), int), ShapeTy::Uninit);
    assert_eq!(meet(ShapeTy::Func(1), ShapeTy::Func(1)), ShapeTy::Func(1));
    assert_eq!(meet(ShapeTy::Func(1), ShapeTy::Func(2)), ShapeTy::Uninit);
    assert_eq!(meet(ShapeTy::Uninit, int), ShapeTy::Uninit);
    // A reference to a region that the environment lacks is no live value.
    assert_eq!(sound(Ty::MutRef(2), 3), ShapeTy::MutRef(2));
    assert_eq!(sound(Ty::MutRef(3), 3), ShapeTy::Uninit);
    assert_eq!(sound(Ty::Refine(I32, 0), 0), int);
    assert_eq!(sound(Ty::Func(5), 0), ShapeTy::Func(5));
}

#[test]
fn a_set_holds_what_its_members_have_in_common() {
    let mut interner = Interner::new();
    let one = number(&mut interner, 1);
    let truth = Ty::Refine(BaseTy::Bool, interner.intern(ExprNode::Constant(Constant::Bool(true))));
    // Regions 0 and 1 become one cell; they hold a number and a boolean.
    let left = Env::from_slots(0, vec![Ty::MutRef(0)], vec![one, truth, Ty::MutRef(0)]);
    let right = Env::from_slots(0, vec![Ty::MutRef(1)], vec![one, truth, Ty::MutRef(1)]);
    let mut shape = Shape::from_env(&left);
    shape.merge_with(&right);
    let sets = shape.resolve();
    assert_eq!(sets.find(1), 0);
    assert_eq!(sets.find(2), 2);
    assert_eq!(sets.get(0), ShapeTy::Uninit);
    // Region 2 refers to the one cell on both paths.
    assert_eq!(sets.get(2), ShapeTy::MutRef(0));
}
