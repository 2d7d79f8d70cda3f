//! What refinement expressions mean.
//!
//! Nothing here runs: the meaning of an expression is what the laws of the
//! checker are stated over. An expression denotes a value once the implicit
//! binder, the free names and the holes are given one.

use vstd::prelude::*;
use crate::constraint::{
    exact_spec,
    mentions_binder_spec,
    pinned_spec,
    subtyping_spec,
    unpack_spec,
    value_of_spec,
    Cursor,
    NodeKind,
    TreeModel,
};
use crate::intern::{arena_closed, arena_extends, arena_wf, conj_spec, intern_spec, lemma_intern_spec};
use crate::subst::{bindings_below, instantiate_spec, subst_expr_spec};
use crate::switch::{guard_spec, otherwise_spec};
use crate::ty::{BaseTy, BinOp, Constant, ExprId, ExprNode, HoleId, Name, Ty, UnOp};

verus! {

pub enum Value {
    Int(int),
    Bool(bool),
}

/// A choice of values: for the implicit binder and for each free name,
/// and for each hole the values of which it holds.
pub struct Valuation {
    pub bound: Value,
    pub free: spec_fn(Name) -> Value,
    pub holes: spec_fn(HoleId, Value) -> bool,
}

/// A value read as a truth value: an integer is true unless it is zero.
pub open spec fn truth(v: Value) -> bool {
    match v {
        Value::Bool(b) => b,
        Value::Int(n) => n != 0,
    }
}

/// A value read as a number: true is one, false is zero.
pub open spec fn number(v: Value) -> int {
    match v {
        Value::Int(n) => n,
        Value::Bool(b) => if b {
            1
        } else {
            0
        },
    }
}

pub open spec fn unary_value(op: UnOp, x: Value) -> Value {
    match op {
        UnOp::Not => Value::Bool(!truth(x)),
        UnOp::Neg => Value::Int(-number(x)),
    }
}

/// Division by zero is given the value zero; the checker demands
/// separately that no divisor is zero.
pub open spec fn binary_value(op: BinOp, x: Value, y: Value) -> Value {
    match op {
        BinOp::Eq => Value::Bool(x == y),
        BinOp::Ne => Value::Bool(x != y),
        BinOp::Gt => Value::Bool(number(x) > number(y)),
        BinOp::Ge => Value::Bool(number(x) >= number(y)),
        BinOp::Lt => Value::Bool(number(x) < number(y)),
        BinOp::Le => Value::Bool(number(x) <= number(y)),
        BinOp::And => Value::Bool(truth(x) && truth(y)),
        BinOp::Or => Value::Bool(truth(x) || truth(y)),
        BinOp::Add => Value::Int(number(x) + number(y)),
        BinOp::Sub => Value::Int(number(x) - number(y)),
        BinOp::Mul => Value::Int(number(x) * number(y)),
        BinOp::Div => Value::Int(
            if number(y) == 0 {
                0
            } else {
                number(x) / number(y)
            },
        ),
    }
}

/// The value of an expression of the arena under a valuation.
pub open spec fn eval(nodes: Seq<ExprNode>, e: ExprId, rho: Valuation) -> Value
    decreases e,
{
    if e < nodes.len() {
        match nodes[e as int] {
            ExprNode::Bound => rho.bound,
            ExprNode::Free(x) => (rho.free)(x),
            ExprNode::Constant(c) => match c {
                Constant::Bool(b) => Value::Bool(b),
                Constant::Int(_, _) => Value::Int(c.value()),
            },
            ExprNode::Hole(k, a) => if a < e {
                Value::Bool((rho.holes)(k, eval(nodes, a, rho)))
            } else {
                Value::Bool(false)
            },
            ExprNode::UnaryOp(op, a) => if a < e {
                unary_value(op, eval(nodes, a, rho))
            } else {
                Value::Bool(false)
            },
            ExprNode::BinaryOp(op, a, b) => if a < e && b < e {
                binary_value(op, eval(nodes, a, rho), eval(nodes, b, rho))
            } else {
                Value::Bool(false)
            },
            ExprNode::Nil => Value::Bool(true),
            ExprNode::Cons(a, b) => if a < e && b < e {
                Value::Bool(truth(eval(nodes, a, rho)) && truth(eval(nodes, b, rho)))
            } else {
                Value::Bool(false)
            },
        }
    } else {
        Value::Bool(false)
    }
}

/// Whether an expression holds under a valuation.
pub open spec fn holds(nodes: Seq<ExprNode>, e: ExprId, rho: Valuation) -> bool {
    truth(eval(nodes, e, rho))
}

/// An expression means in a later arena what it meant in the earlier one.
pub proof fn lemma_eval_later(earlier: Seq<ExprNode>, later: Seq<ExprNode>, e: ExprId, rho: Valuation)
    requires
        arena_closed(earlier),
        arena_extends(later, earlier),
        e < earlier.len(),
    ensures
        eval(later, e, rho) == eval(earlier, e, rho),
    decreases e,
{
    assert(later[e as int] == earlier[e as int]);
    assert(earlier[e as int].children_below(e as nat));
    match earlier[e as int] {
        ExprNode::Hole(_, a) => {
            lemma_eval_later(earlier, later, a, rho);
        },
        ExprNode::UnaryOp(_, a) => {
            lemma_eval_later(earlier, later, a, rho);
        },
        ExprNode::BinaryOp(_, a, b) => {
            lemma_eval_later(earlier, later, a, rho);
            lemma_eval_later(earlier, later, b, rho);
        },
        ExprNode::Cons(a, b) => {
            lemma_eval_later(earlier, later, a, rho);
            lemma_eval_later(earlier, later, b, rho);
        },
        _ => {},
    }
}

/// The guard of `otherwise` over the first `n` guards holds exactly where
/// none of them holds.
pub proof fn lemma_otherwise_holds(nodes: Seq<ExprNode>, guards: Seq<ExprId>, n: int, rho: Valuation)
    requires
        arena_wf(nodes),
        0 <= n <= guards.len(),
        forall|i: int| 0 <= i < guards.len() ==> #[trigger] guards[i] < nodes.len(),
        otherwise_spec(nodes, guards, n).0.len() <= usize::MAX,
    ensures
        ({
            let (after, ow) = otherwise_spec(nodes, guards, n);
            &&& arena_wf(after)
            &&& arena_extends(after, nodes)
            &&& (ow is None <==> n == 0)
            &&& ow is Some ==> ow->0 < after.len() && (holds(after, ow->0, rho) <==> forall|i: int|
                0 <= i < n ==> !holds(nodes, #[trigger] guards[i], rho))
        }),
    decreases n,
{
    if n > 0 {
        lemma_otherwise_holds(nodes, guards, n - 1, rho);
        let (n1, acc) = otherwise_spec(nodes, guards, n - 1);
        let g = guards[n - 1];
        assert(g < nodes.len());
        lemma_intern_eval(n1, ExprNode::UnaryOp(UnOp::Not, g), rho);
        let (n2, ng) = intern_spec(n1, ExprNode::UnaryOp(UnOp::Not, g));
        assert(n2[ng as int].children_below(ng as nat));
        lemma_eval_later(nodes, n2, g, rho);
        assert(holds(n2, ng, rho) == !holds(nodes, g, rho));
        match acc {
            None => {
                assert(n == 1);
            },
            Some(a) => {
                lemma_intern_eval(n2, ExprNode::BinaryOp(BinOp::And, a, ng), rho);
                let (n3, conj) = intern_spec(n2, ExprNode::BinaryOp(BinOp::And, a, ng));
                assert(n3[conj as int].children_below(conj as nat));
                lemma_eval_later(n1, n3, a, rho);
                lemma_eval_later(n2, n3, ng, rho);
                assert(holds(n3, conj, rho) == (holds(n1, a, rho) && holds(n2, ng, rho)));
            },
        }
    }
}

/// What the guard of a branch says of the discriminant `e`: for a
/// boolean, that it holds, or that it does not where the bits are zero;
/// for an integer, that it is the number that the bits stand for.
pub open spec fn guard_meaning(nodes: Seq<ExprNode>, bty: BaseTy, e: ExprId, bits: u128, rho: Valuation) -> bool {
    match bty {
        BaseTy::Bool => if bits != 0 {
            holds(nodes, e, rho)
        } else {
            !holds(nodes, e, rho)
        },
        _ => eval(nodes, e, rho) == Value::Int(Constant::from_bits_spec(bty, bits).value()),
    }
}

/// The guard of a branch holds exactly where the discriminant has the
/// value of the branch.
pub proof fn lemma_guard_holds(nodes: Seq<ExprNode>, bty: BaseTy, e: ExprId, bits: u128, rho: Valuation)
    requires
        arena_wf(nodes),
        e < nodes.len(),
        guard_spec(nodes, bty, e, bits).0.len() <= usize::MAX,
    ensures
        ({
            let (after, g) = guard_spec(nodes, bty, e, bits);
            &&& arena_wf(after)
            &&& arena_extends(after, nodes)
            &&& g < after.len()
            &&& holds(after, g, rho) == guard_meaning(nodes, bty, e, bits, rho)
        }),
{
    match bty {
        BaseTy::Bool => {
            if bits == 0 {
                let node = ExprNode::UnaryOp(UnOp::Not, e);
                lemma_intern_eval(nodes, node, rho);
                let (after, g) = intern_spec(nodes, node);
                lemma_eval_later(nodes, after, e, rho);
            }
        },
        _ => {
            let lit = ExprNode::Constant(Constant::from_bits_spec(bty, bits));
            lemma_intern_eval(nodes, lit, rho);
            let (n1, k) = intern_spec(nodes, lit);
            let node = ExprNode::BinaryOp(BinOp::Eq, e, k);
            lemma_intern_eval(n1, node, rho);
            let (n2, g) = intern_spec(n1, node);
            lemma_eval_later(nodes, n2, e, rho);
            lemma_eval_later(n1, n2, k, rho);
            assert(eval(n1, k, rho) == Value::Int(Constant::from_bits_spec(bty, bits).value()));
        },
    }
}

/// Different bits stand for different numbers.
pub proof fn law_from_bits_injective(bty: BaseTy, b1: u128, b2: u128)
    requires
        b1 != b2,
    ensures
        Constant::from_bits_spec(bty, b1).value() != Constant::from_bits_spec(bty, b2).value(),
{
}

/// The guards of two branches of different bits never both hold, under
/// any valuation. For a boolean, whose guard asks only whether the bits
/// are zero, one of the two must be zero.
pub proof fn law_branch_guards_exclusive(
    nodes: Seq<ExprNode>,
    bty: BaseTy,
    e: ExprId,
    b1: u128,
    b2: u128,
    rho: Valuation,
)
    requires
        arena_wf(nodes),
        e < nodes.len(),
        b1 != b2,
        bty is Bool ==> b1 == 0 || b2 == 0,
        guard_spec(guard_spec(nodes, bty, e, b1).0, bty, e, b2).0.len() <= usize::MAX,
    ensures
        ({
            let (n1, g1) = guard_spec(nodes, bty, e, b1);
            let (n2, g2) = guard_spec(n1, bty, e, b2);
            !(holds(n2, g1, rho) && holds(n2, g2, rho))
        }),
{
    let (n1, g1) = guard_spec(nodes, bty, e, b1);
    lemma_guard_grows(n1, bty, e, b2);
    lemma_guard_holds(nodes, bty, e, b1, rho);
    lemma_guard_holds(n1, bty, e, b2, rho);
    let (n2, g2) = guard_spec(n1, bty, e, b2);
    lemma_eval_later(n1, n2, g1, rho);
    lemma_eval_later(nodes, n1, e, rho);
    law_from_bits_injective(bty, b1, b2);
}

/// Making a guard takes nothing out of the arena.
proof fn lemma_guard_grows(nodes: Seq<ExprNode>, bty: BaseTy, e: ExprId, bits: u128)
    ensures
        nodes.len() <= guard_spec(nodes, bty, e, bits).0.len(),
{
}

/// Every expression of the list from the `i`-th on holds.
pub open spec fn all_hold(nodes: Seq<ExprNode>, items: Seq<ExprId>, i: int, rho: Valuation) -> bool {
    forall|k: int| i <= k < items.len() ==> holds(nodes, #[trigger] items[k], rho)
}

/// The conjunction of a list holds exactly where every expression of the
/// list holds; that of the empty list holds always.
pub proof fn law_list_is_conjunction(nodes: Seq<ExprNode>, items: Seq<ExprId>, i: int, rho: Valuation)
    requires
        arena_wf(nodes),
        0 <= i <= items.len(),
        forall|k: int| 0 <= k < items.len() ==> #[trigger] items[k] < nodes.len(),
        conj_spec(nodes, items, i).0.len() <= usize::MAX,
    ensures
        ({
            let (after, e) = conj_spec(nodes, items, i);
            &&& arena_wf(after)
            &&& arena_extends(after, nodes)
            &&& e < after.len()
            &&& holds(after, e, rho) == all_hold(nodes, items, i, rho)
        }),
    decreases items.len() - i,
{
    if i >= items.len() {
        lemma_intern_eval(nodes, ExprNode::Nil, rho);
    } else {
        law_list_is_conjunction(nodes, items, i + 1, rho);
        let (n1, rest) = conj_spec(nodes, items, i + 1);
        let node = ExprNode::Cons(items[i], rest);
        lemma_intern_eval(n1, node, rho);
        let (n2, e) = intern_spec(n1, node);
        lemma_eval_later(nodes, n2, items[i], rho);
        lemma_eval_later(n1, n2, rest, rho);
        assert(holds(n2, e, rho) == (holds(nodes, items[i], rho) && all_hold(nodes, items, i + 1, rho)));
    }
}

/// None of the guards holds.
pub open spec fn none_holds(nodes: Seq<ExprNode>, guards: Seq<ExprId>, rho: Valuation) -> bool {
    forall|i: int| 0 <= i < guards.len() ==> !holds(nodes, #[trigger] guards[i], rho)
}

/// The guards of a branch are exclusive and exhaustive. Under every
/// valuation, the guard of `otherwise` and the guard of a branch do not
/// both hold, and one of the guards holds: that of `otherwise` or that of
/// a branch. Where there is no branch, `otherwise` has no guard and is
/// taken always.
pub proof fn law_switch_guards_exclusive_and_exhaustive(
    nodes: Seq<ExprNode>,
    guards: Seq<ExprId>,
    rho: Valuation,
)
    requires
        arena_wf(nodes),
        forall|i: int| 0 <= i < guards.len() ==> #[trigger] guards[i] < nodes.len(),
        otherwise_spec(nodes, guards, guards.len() as int).0.len() <= usize::MAX,
    ensures
        ({
            let (after, ow) = otherwise_spec(nodes, guards, guards.len() as int);
            match ow {
                Some(o) => {
                    &&& forall|i: int|
                        0 <= i < guards.len() ==> !(holds(after, o, rho) && holds(
                            after,
                            #[trigger] guards[i],
                            rho,
                        ))
                    &&& holds(after, o, rho) || exists|i: int|
                        0 <= i < guards.len() && holds(after, #[trigger] guards[i], rho)
                },
                None => guards.len() == 0,
            }
        }),
{
    lemma_otherwise_holds(nodes, guards, guards.len() as int, rho);
    let (after, ow) = otherwise_spec(nodes, guards, guards.len() as int);
    assert forall|i: int| 0 <= i < guards.len() implies holds(after, #[trigger] guards[i], rho) == holds(
        nodes,
        guards[i],
        rho,
    ) by {
        lemma_eval_later(nodes, after, guards[i], rho);
    }
}


/// The valuation under which an expression means what its image under a
/// substitution means: every name that is replaced has the value of what
/// replaces it, and so has the implicit binder.
pub open spec fn substituted(
    nodes: Seq<ExprNode>,
    exprs: Map<Name, ExprId>,
    bound: Option<ExprId>,
    rho: Valuation,
) -> Valuation {
    Valuation {
        bound: match bound {
            Some(b) => eval(nodes, b, rho),
            None => rho.bound,
        },
        free: |x: Name|
            if exprs.contains_key(x) {
                eval(nodes, exprs[x], rho)
            } else {
                (rho.free)(x)
            },
        holes: rho.holes,
    }
}

/// Substitution never makes the arena shorter.
proof fn lemma_subst_len(nodes: Seq<ExprNode>, exprs: Map<Name, ExprId>, bound: Option<ExprId>, e: ExprId)
    ensures
        subst_expr_spec(nodes, exprs, bound, e).0.len() >= nodes.len(),
    decreases e,
{
    if e < nodes.len() {
        match nodes[e as int] {
            ExprNode::Hole(k, a) => {
                if a < e {
                    lemma_subst_len(nodes, exprs, bound, a);
                }
            },
            ExprNode::UnaryOp(op, a) => {
                if a < e {
                    lemma_subst_len(nodes, exprs, bound, a);
                }
            },
            ExprNode::BinaryOp(op, a, b) => {
                if a < e && b < e {
                    lemma_subst_len(nodes, exprs, bound, a);
                    lemma_subst_len(subst_expr_spec(nodes, exprs, bound, a).0, exprs, bound, b);
                }
            },
            ExprNode::Cons(a, b) => {
                if a < e && b < e {
                    lemma_subst_len(nodes, exprs, bound, a);
                    lemma_subst_len(subst_expr_spec(nodes, exprs, bound, a).0, exprs, bound, b);
                }
            },
            _ => {},
        }
    }
}

/// What a node means is what its operator makes of what its children
/// mean.
proof fn lemma_intern_eval(nodes: Seq<ExprNode>, node: ExprNode, rho: Valuation)
    requires
        arena_wf(nodes),
        node.children_below(nodes.len()),
        intern_spec(nodes, node).0.len() <= usize::MAX,
    ensures
        arena_wf(intern_spec(nodes, node).0),
        arena_extends(intern_spec(nodes, node).0, nodes),
        intern_spec(nodes, node).1 < intern_spec(nodes, node).0.len(),
        intern_spec(nodes, node).0[intern_spec(nodes, node).1 as int] == node,
        node.children_below(intern_spec(nodes, node).1 as nat),
{
    if nodes.contains(node) {
        let k = nodes.index_of(node);
        assert(nodes[k] == node);
        assert(nodes[k].children_below(k as nat));
    } else {
        lemma_intern_spec(nodes, node);
    }
}

/// The substitution lemma: the image of an expression under a
/// substitution means what the expression means once every name that is
/// replaced, and the implicit binder, has the value of what replaces it.
pub proof fn law_substitution_is_binding(
    nodes: Seq<ExprNode>,
    exprs: Map<Name, ExprId>,
    bound: Option<ExprId>,
    e: ExprId,
    rho: Valuation,
)
    requires
        arena_wf(nodes),
        e < nodes.len(),
        bindings_below(exprs, nodes.len()),
        bound is Some ==> bound->0 < nodes.len(),
        subst_expr_spec(nodes, exprs, bound, e).0.len() <= usize::MAX,
    ensures
        arena_wf(subst_expr_spec(nodes, exprs, bound, e).0),
        arena_extends(subst_expr_spec(nodes, exprs, bound, e).0, nodes),
        subst_expr_spec(nodes, exprs, bound, e).1 < subst_expr_spec(nodes, exprs, bound, e).0.len(),
        eval(subst_expr_spec(nodes, exprs, bound, e).0, subst_expr_spec(nodes, exprs, bound, e).1, rho)
            == eval(nodes, e, substituted(nodes, exprs, bound, rho)),
    decreases e,
{
    let rho_s = substituted(nodes, exprs, bound, rho);
    assert(nodes[e as int].children_below(e as nat));
    match nodes[e as int] {
        ExprNode::Free(x) => {
            if exprs.contains_key(x) {
                assert(exprs[x] < nodes.len());
            }
        },
        ExprNode::Hole(k, a) => {
            let (n1, a1) = subst_expr_spec(nodes, exprs, bound, a);
            let node = ExprNode::Hole(k, a1);
            lemma_subst_len(nodes, exprs, bound, a);
            assert(intern_spec(n1, node).0.len() >= n1.len());
            law_substitution_is_binding(nodes, exprs, bound, a, rho);
            lemma_intern_eval(n1, node, rho);
            let (n2, r) = intern_spec(n1, node);
            lemma_eval_later(n1, n2, a1, rho);
        },
        ExprNode::UnaryOp(op, a) => {
            let (n1, a1) = subst_expr_spec(nodes, exprs, bound, a);
            let node = ExprNode::UnaryOp(op, a1);
            lemma_subst_len(nodes, exprs, bound, a);
            assert(intern_spec(n1, node).0.len() >= n1.len());
            law_substitution_is_binding(nodes, exprs, bound, a, rho);
            lemma_intern_eval(n1, node, rho);
            let (n2, r) = intern_spec(n1, node);
            lemma_eval_later(n1, n2, a1, rho);
        },
        ExprNode::BinaryOp(op, a, b) => {
            let (n1, a1) = subst_expr_spec(nodes, exprs, bound, a);
            let (n2, b1) = subst_expr_spec(n1, exprs, bound, b);
            let node = ExprNode::BinaryOp(op, a1, b1);
            lemma_subst_len(nodes, exprs, bound, a);
            lemma_subst_len(n1, exprs, bound, b);
            assert(intern_spec(n2, node).0.len() >= n2.len());
            law_substitution_is_binding(nodes, exprs, bound, a, rho);
            assert(bindings_below(exprs, n1.len())) by {
                assert forall|x: Name| exprs.contains_key(x) implies #[trigger] exprs[x] < n1.len() by {
                    assert(exprs[x] < nodes.len());
                }
            }
            assert(n1[b as int] == nodes[b as int]);
            law_substitution_is_binding(n1, exprs, bound, b, rho);
            // In the later arena the substitution means the same.
            let rho_1 = substituted(n1, exprs, bound, rho);
            assert(rho_1.free =~= rho_s.free) by {
                assert forall|x: Name| #[trigger] (rho_1.free)(x) == (rho_s.free)(x) by {
                    if exprs.contains_key(x) {
                        assert(exprs[x] < nodes.len());
                        lemma_eval_later(nodes, n1, exprs[x], rho);
                    }
                }
            }
            if bound is Some {
                lemma_eval_later(nodes, n1, bound->0, rho);
            }
            assert(rho_1 == rho_s);
            lemma_eval_later(nodes, n1, b, rho_s);
            lemma_intern_eval(n2, node, rho);
            let (n3, r) = intern_spec(n2, node);
            lemma_eval_later(n1, n2, a1, rho);
            lemma_eval_later(n2, n3, a1, rho);
            lemma_eval_later(n2, n3, b1, rho);
        },
        ExprNode::Cons(a, b) => {
            let (n1, a1) = subst_expr_spec(nodes, exprs, bound, a);
            let (n2, b1) = subst_expr_spec(n1, exprs, bound, b);
            let node = ExprNode::Cons(a1, b1);
            lemma_subst_len(nodes, exprs, bound, a);
            lemma_subst_len(n1, exprs, bound, b);
            assert(intern_spec(n2, node).0.len() >= n2.len());
            law_substitution_is_binding(nodes, exprs, bound, a, rho);
            assert(bindings_below(exprs, n1.len())) by {
                assert forall|x: Name| exprs.contains_key(x) implies #[trigger] exprs[x] < n1.len() by {
                    assert(exprs[x] < nodes.len());
                }
            }
            assert(n1[b as int] == nodes[b as int]);
            law_substitution_is_binding(n1, exprs, bound, b, rho);
            // In the later arena the substitution means the same.
            let rho_1 = substituted(n1, exprs, bound, rho);
            assert(rho_1.free =~= rho_s.free) by {
                assert forall|x: Name| #[trigger] (rho_1.free)(x) == (rho_s.free)(x) by {
                    if exprs.contains_key(x) {
                        assert(exprs[x] < nodes.len());
                        lemma_eval_later(nodes, n1, exprs[x], rho);
                    }
                }
            }
            if bound is Some {
                lemma_eval_later(nodes, n1, bound->0, rho);
            }
            assert(rho_1 == rho_s);
            lemma_eval_later(nodes, n1, b, rho_s);
            lemma_intern_eval(n2, node, rho);
            let (n3, r) = intern_spec(n2, node);
            lemma_eval_later(n1, n2, a1, rho);
            lemma_eval_later(n2, n3, a1, rho);
            lemma_eval_later(n2, n3, b1, rho);
        },
        _ => {},
    }
}

/// The valuation in which the implicit binder has a value.
pub open spec fn bind(rho: Valuation, v: Value) -> Valuation {
    Valuation { bound: v, ..rho }
}

/// A predicate said of a value holds exactly if the predicate holds once
/// the implicit binder has the value of that value. This is what the goal
/// of a subtyping judgment says: the predicate of the supertype, of the
/// value that the subtype pins down.
pub proof fn law_instantiate_is_binding(nodes: Seq<ExprNode>, pred: ExprId, value: ExprId, rho: Valuation)
    requires
        arena_wf(nodes),
        pred < nodes.len(),
        value < nodes.len(),
        instantiate_spec(nodes, pred, value).0.len() <= usize::MAX,
    ensures
        eval(instantiate_spec(nodes, pred, value).0, instantiate_spec(nodes, pred, value).1, rho) == eval(
            nodes,
            pred,
            bind(rho, eval(nodes, value, rho)),
        ),
{
    law_substitution_is_binding(nodes, Map::empty(), Some(value), pred, rho);
    let rho_s = substituted(nodes, Map::empty(), Some(value), rho);
    assert(rho_s.free =~= rho.free);
    assert(rho_s == bind(rho, eval(nodes, value, rho)));
}

/// A type that pins a value down describes that value and no other: its
/// predicate holds of a value exactly if that is the value pinned down.
pub proof fn law_pinned_is_the_value(nodes: Seq<ExprNode>, p: ExprId, rho: Valuation, v: Value)
    requires
        arena_wf(nodes),
        pinned_spec(nodes, p) is Some,
    ensures
        holds(nodes, p, bind(rho, v)) <==> v == eval(nodes, pinned_spec(nodes, p)->0, rho),
{
    let e = pinned_spec(nodes, p)->0;
    lemma_eval_ignores_binder(nodes, e, rho, v);
    match nodes[p as int] {
        ExprNode::BinaryOp(op, a, b) => {
            assert(op == BinOp::Eq && b == e && nodes[a as int] == ExprNode::Bound);
            assert(eval(nodes, a, bind(rho, v)) == v);
            assert(eval(nodes, p, bind(rho, v)) == Value::Bool(v == eval(nodes, e, bind(rho, v))));
        },
        _ => {},
    }
}

/// What an expression that does not mention the implicit binder means
/// does not depend on the value of the binder.
pub proof fn lemma_eval_ignores_binder(nodes: Seq<ExprNode>, e: ExprId, rho: Valuation, v: Value)
    requires
        arena_closed(nodes),
        e < nodes.len(),
        !mentions_binder_spec(nodes, e),
    ensures
        eval(nodes, e, bind(rho, v)) == eval(nodes, e, rho),
    decreases e,
{
    assert(nodes[e as int].children_below(e as nat));
    match nodes[e as int] {
        ExprNode::Hole(_, a) => {
            lemma_eval_ignores_binder(nodes, a, rho, v);
        },
        ExprNode::UnaryOp(_, a) => {
            lemma_eval_ignores_binder(nodes, a, rho, v);
        },
        ExprNode::BinaryOp(_, a, b) => {
            lemma_eval_ignores_binder(nodes, a, rho, v);
            lemma_eval_ignores_binder(nodes, b, rho, v);
        },
        ExprNode::Cons(a, b) => {
            lemma_eval_ignores_binder(nodes, a, rho, v);
            lemma_eval_ignores_binder(nodes, b, rho, v);
        },
        _ => {},
    }
}


/// The goal of a subtyping judgment says that the subtype is included in
/// the supertype. Where the first of two refinements of one base type pins
/// a value down, the judgment adds one goal, and under every valuation the
/// goal holds exactly if every value that the predicate of the first holds
/// of is a value that the predicate of the second holds of.
pub proof fn law_subtyping_goal_is_inclusion(
    nodes: Seq<ExprNode>,
    tree: TreeModel,
    c: Cursor,
    b: BaseTy,
    p1: ExprId,
    p2: ExprId,
    rho: Valuation,
)
    requires
        arena_wf(nodes),
        p1 < nodes.len(),
        p2 < nodes.len(),
        pinned_spec(nodes, p1) is Some,
        subtyping_spec(nodes, tree, c, Ty::Refine(b, p1), Ty::Refine(b, p2)).0.len() <= usize::MAX,
    ensures
        ({
            let (after, grown, r) = subtyping_spec(nodes, tree, c, Ty::Refine(b, p1), Ty::Refine(b, p2));
            &&& r is Ok
            &&& grown.nodes.len() == tree.nodes.len() + 1
            &&& grown.nodes.last().parent == c.node
            &&& grown.nodes.last().kind is Head
            &&& holds(after, grown.nodes.last().kind->Head_0, rho) <==> forall|v: Value| #[trigger]
                holds(nodes, p1, bind(rho, v)) ==> holds(nodes, p2, bind(rho, v))
        }),
{
    let e1 = pinned_spec(nodes, p1)->0;
    let value = eval(nodes, e1, rho);
    law_instantiate_is_binding(nodes, p2, e1, rho);
    law_pinned_is_the_value(nodes, p1, rho, value);
    assert forall|v: Value| #[trigger] holds(nodes, p1, bind(rho, v)) implies v == value by {
        law_pinned_is_the_value(nodes, p1, rho, v);
    }
}


/// Whether an expression mentions the implicit binder does not change as
/// the arena grows.
pub proof fn lemma_mentions_binder_later(earlier: Seq<ExprNode>, later: Seq<ExprNode>, e: ExprId)
    requires
        arena_closed(earlier),
        arena_extends(later, earlier),
        e < earlier.len(),
    ensures
        mentions_binder_spec(later, e) == mentions_binder_spec(earlier, e),
    decreases e,
{
    assert(later[e as int] == earlier[e as int]);
    assert(earlier[e as int].children_below(e as nat));
    match earlier[e as int] {
        ExprNode::Hole(_, a) => {
            lemma_mentions_binder_later(earlier, later, a);
        },
        ExprNode::UnaryOp(_, a) => {
            lemma_mentions_binder_later(earlier, later, a);
        },
        ExprNode::BinaryOp(_, a, b) => {
            lemma_mentions_binder_later(earlier, later, a);
            lemma_mentions_binder_later(earlier, later, b);
        },
        ExprNode::Cons(a, b) => {
            lemma_mentions_binder_later(earlier, later, a);
            lemma_mentions_binder_later(earlier, later, b);
        },
        _ => {},
    }
}

/// The type of the values that are equal to `e` pins `e` down, where `e`
/// does not mention the value.
pub proof fn law_exact_pins_its_value(nodes: Seq<ExprNode>, b: BaseTy, e: ExprId)
    requires
        arena_wf(nodes),
        e < nodes.len(),
        !mentions_binder_spec(nodes, e),
        nodes.len() + 2 <= usize::MAX,
    ensures
        arena_wf(exact_spec(nodes, b, e).0),
        arena_extends(exact_spec(nodes, b, e).0, nodes),
        value_of_spec(exact_spec(nodes, b, e).0, exact_spec(nodes, b, e).1) == Some((b, e)),
{
    lemma_intern_spec(nodes, ExprNode::Bound);
    let (n1, v) = intern_spec(nodes, ExprNode::Bound);
    let node = ExprNode::BinaryOp(BinOp::Eq, v, e);
    lemma_intern_spec(n1, node);
    let (n2, p) = intern_spec(n1, node);
    assert(n2[p as int].children_below(p as nat));
    assert(n2[v as int] == ExprNode::Bound);
    lemma_mentions_binder_later(nodes, n2, e);
}

/// Unpacking is sound: the hypothesis that it adds says the predicate of
/// the type of the fresh variable, and the type that it gives pins that
/// variable down. So whatever is proved of the variable under the
/// hypothesis is proved of every value of the type.
pub proof fn law_unpack_names_a_value(
    nodes: Seq<ExprNode>,
    tree: TreeModel,
    c: Cursor,
    b: BaseTy,
    p: ExprId,
    rho: Valuation,
)
    requires
        arena_wf(nodes),
        p < nodes.len(),
        pinned_spec(nodes, p) is None,
        unpack_spec(nodes, tree, c, Ty::Refine(b, p)).0.len() + 2 <= usize::MAX,
        tree.names.len() <= usize::MAX,
        tree.nodes.len() <= usize::MAX,
    ensures
        ({
            let (after, grown, inner, named) = unpack_spec(nodes, tree, c, Ty::Refine(b, p));
            let x = tree.names.len() as usize;
            &&& grown.names == tree.names.push(b.sort_spec())
            &&& grown.nodes.len() == tree.nodes.len() + 1
            &&& inner.node == tree.nodes.len()
            &&& grown.nodes.last().parent == c.node
            &&& grown.nodes.last().kind is ForAll
            &&& grown.nodes.last().kind->ForAll_0 == x
            &&& holds(after, grown.nodes.last().kind->ForAll_2, rho) <==> holds(
                nodes,
                p,
                bind(rho, (rho.free)(x)),
            )
            &&& value_of_spec(after, named) is Some
            &&& eval(after, (value_of_spec(after, named)->0).1, rho) == (rho.free)(x)
        }),
{
    let x = tree.names.len() as usize;
    let (n1, xe) = intern_spec(nodes, ExprNode::Free(x));
    let (n2, hyp) = instantiate_spec(n1, p, xe);
    let (n3, named) = exact_spec(n2, b, xe);
    lemma_subst_len(n1, Map::empty(), Some(xe), p);
    assert(n3.len() >= n2.len()) by {
        let (m1, v) = intern_spec(n2, ExprNode::Bound);
        assert(m1.len() >= n2.len());
        assert(intern_spec(m1, ExprNode::BinaryOp(BinOp::Eq, v, xe)).0.len() >= m1.len());
    }
    lemma_intern_spec(nodes, ExprNode::Free(x));
    law_instantiate_is_binding(n1, p, xe, rho);
    law_substitution_is_binding(n1, Map::empty(), Some(xe), p, rho);
    lemma_eval_later(nodes, n1, p, bind(rho, (rho.free)(x)));
    assert(eval(n1, xe, rho) == (rho.free)(x));
    assert(n2[xe as int] == ExprNode::Free(x));
    assert(!mentions_binder_spec(n2, xe));
    law_exact_pins_its_value(n2, b, xe);
    lemma_eval_later(n2, n3, hyp, rho);
    assert(n3[xe as int] == ExprNode::Free(x));
    assert(eval(n3, xe, rho) == (rho.free)(x));
}

/// Whether an expression mentions a hole.
pub open spec fn mentions_hole_spec(nodes: Seq<ExprNode>, e: ExprId) -> bool
    decreases e,
{
    if e < nodes.len() {
        match nodes[e as int] {
            ExprNode::Hole(_, _) => true,
            ExprNode::UnaryOp(_, a) => a < e && mentions_hole_spec(nodes, a),
            ExprNode::BinaryOp(_, a, b) => a < e && b < e && (mentions_hole_spec(nodes, a) || mentions_hole_spec(
                nodes,
                b,
            )),
            ExprNode::Cons(a, b) => a < e && b < e && (mentions_hole_spec(nodes, a) || mentions_hole_spec(nodes, b)),
            _ => false,
        }
    } else {
        false
    }
}

/// What an expression that mentions no hole means does not depend on what
/// the holes hold of.
pub proof fn lemma_eval_ignores_holes(
    nodes: Seq<ExprNode>,
    e: ExprId,
    rho: Valuation,
    holes: spec_fn(HoleId, Value) -> bool,
)
    requires
        arena_closed(nodes),
        e < nodes.len(),
        !mentions_hole_spec(nodes, e),
    ensures
        eval(nodes, e, with_holes(rho, holes)) == eval(nodes, e, rho),
    decreases e,
{
    assert(nodes[e as int].children_below(e as nat));
    match nodes[e as int] {
        ExprNode::UnaryOp(_, a) => {
            lemma_eval_ignores_holes(nodes, a, rho, holes);
        },
        ExprNode::BinaryOp(_, a, b) => {
            lemma_eval_ignores_holes(nodes, a, rho, holes);
            lemma_eval_ignores_holes(nodes, b, rho, holes);
        },
        ExprNode::Cons(a, b) => {
            lemma_eval_ignores_holes(nodes, a, rho, holes);
            lemma_eval_ignores_holes(nodes, b, rho, holes);
        },
        _ => {},
    }
}

/// Every hypothesis in force at a node holds.
pub open spec fn hypotheses_hold(nodes: Seq<ExprNode>, tree: TreeModel, i: int, rho: Valuation) -> bool {
    forall|k: int| 0 <= k < tree.hypotheses(i).len() ==> holds(nodes, #[trigger] tree.hypotheses(i)[k], rho)
}

/// Every goal of the tree holds wherever the hypotheses in force at it
/// hold.
pub open spec fn goals_follow(nodes: Seq<ExprNode>, tree: TreeModel, rho: Valuation) -> bool {
    forall|i: int|
        0 <= i < tree.nodes.len() && (#[trigger] tree.nodes[i]).kind is Head && hypotheses_hold(nodes, tree, i, rho)
            ==> holds(nodes, tree.nodes[i].kind->Head_0, rho)
}

/// A valuation with the holes read another way.
pub open spec fn with_holes(rho: Valuation, holes: spec_fn(HoleId, Value) -> bool) -> Valuation {
    Valuation { holes, ..rho }
}

/// With the holes read as `holes`, every goal follows from the hypotheses
/// in force at it, whatever the values of the names.
pub open spec fn solved_by(nodes: Seq<ExprNode>, tree: TreeModel, holes: spec_fn(HoleId, Value) -> bool) -> bool {
    forall|rho: Valuation| goals_follow(nodes, tree, #[trigger] with_holes(rho, holes))
}

/// What a query asks: whether the holes can be read so that, whatever the
/// values of the names, every goal follows from the hypotheses in force at
/// it. A solver that is sound says so of no other tree.
pub open spec fn satisfiable(nodes: Seq<ExprNode>, tree: TreeModel) -> bool {
    exists|holes: spec_fn(HoleId, Value) -> bool| #[trigger] solved_by(nodes, tree, holes)
}

/// A goal that fails under hypotheses that can all hold refutes the
/// query: where a goal and the hypotheses in force at it mention no hole,
/// and under some valuation the hypotheses hold and the goal does not, no
/// reading of the holes makes every goal follow. So a goal `false`, owed
/// where the hypotheses can hold, is a failure whatever else the tree
/// holds.
pub proof fn law_failing_goal_refutes_the_query(nodes: Seq<ExprNode>, tree: TreeModel, i: int, rho: Valuation)
    requires
        arena_closed(nodes),
        0 <= i < tree.nodes.len(),
        tree.nodes[i].kind is Head,
        tree.nodes[i].kind->Head_0 < nodes.len(),
        !mentions_hole_spec(nodes, tree.nodes[i].kind->Head_0),
        forall|k: int|
            0 <= k < tree.hypotheses(i).len() ==> (#[trigger] tree.hypotheses(i)[k]) < nodes.len()
                && !mentions_hole_spec(nodes, tree.hypotheses(i)[k]),
        hypotheses_hold(nodes, tree, i, rho),
        !holds(nodes, tree.nodes[i].kind->Head_0, rho),
    ensures
        !satisfiable(nodes, tree),
{
    let goal = tree.nodes[i].kind->Head_0;
    assert forall|holes: spec_fn(HoleId, Value) -> bool| !#[trigger] solved_by(nodes, tree, holes) by {
        let other = with_holes(rho, holes);
        lemma_eval_ignores_holes(nodes, goal, rho, holes);
        assert forall|k: int| 0 <= k < tree.hypotheses(i).len() implies holds(
            nodes,
            #[trigger] tree.hypotheses(i)[k],
            other,
        ) by {
            lemma_eval_ignores_holes(nodes, tree.hypotheses(i)[k], rho, holes);
        }
        assert(hypotheses_hold(nodes, tree, i, other));
        assert(tree.nodes[i].kind is Head);
        assert(!goals_follow(nodes, tree, other));
    }
}

} // verus!
