use liquid_rust::intern::Interner;
use liquid_rust::ty::{BinOp, Constant, ExprNode, Sign, Sort};
use liquid_rust::wf::sort_check;
use rustc_hash::FxHashMap;

#[test]
fn a_list_of_booleans_is_a_boolean() {
    let mut interner = Interner::new();
    let mut sorts: FxHashMap<usize, Sort> = FxHashMap::default();
    sorts.insert(0, Sort::Int);
    sorts.insert(1, Sort::Bool);
    let n = interner.intern(ExprNode::Free(0));
    let flag = interner.intern(ExprNode::Free(1));
    let v = interner.intern(ExprNode::Bound);
    let zero = interner.intern(ExprNode::Constant(Constant::Int(Sign::Positive, 0)));
    let low = interner.intern(ExprNode::BinaryOp(BinOp::Le, zero, n));
    let empty = interner.conj(&vec![]);
    let good = interner.conj(&vec![low, flag]);
    let over_binder = interner.conj(&vec![v, low]);
    let bad = interner.conj(&vec![low, n]);
    let open = interner.intern(ExprNode::Cons(low, zero));
    assert_eq!(sort_check(&interner, &sorts, None, empty), Some(Sort::Bool));
    assert_eq!(sort_check(&interner, &sorts, None, good), Some(Sort::Bool));
    assert_eq!(sort_check(&interner, &sorts, None, bad), None);
    assert_eq!(sort_check(&interner, &sorts, None, open), None);
    assert_eq!(sort_check(&interner, &sorts, Some(Sort::Bool), over_binder), Some(Sort::Bool));
    assert_eq!(sort_check(&interner, &sorts, Some(Sort::Int), over_binder), None);
    assert_eq!(sort_check(&interner, &sorts, None, over_binder), None);
}
