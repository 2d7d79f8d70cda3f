//! The arena of refinement expressions.
//!
//! Expressions are stored once: a node that is already in the arena is
//! handed out again under the handle it got first. Consumers hold handles
//! only, so two expressions are structurally equal exactly when their
//! handles are equal. The arena is keyed by structural hash: a node is
//! looked for among the nodes of its own hash alone.

use vstd::prelude::*;
use rustc_hash::FxHashMap;
use crate::fxmap::{fx_get, fx_insert, fx_new, fx_remove};
use crate::ty::{BinOp, Constant, ExprId, ExprNode, HoleId, Name, Sign, UnOp};

verus! {

/// An expression written out as a tree: what a handle stands for.
pub enum Term {
    Bound,
    Free(Name),
    Constant(Constant),
    Hole(HoleId, Box<Term>),
    UnaryOp(UnOp, Box<Term>),
    BinaryOp(BinOp, Box<Term>, Box<Term>),
    Nil,
    Cons(Box<Term>, Box<Term>),
}

/// Every node's children were interned before the node itself.
pub open spec fn arena_closed(nodes: Seq<ExprNode>) -> bool {
    forall|i: int| 0 <= i < nodes.len() ==> (#[trigger] nodes[i]).children_below(i as nat)
}

/// No node is stored twice.
pub open spec fn arena_distinct(nodes: Seq<ExprNode>) -> bool {
    forall|i: int, j: int|
        0 <= i < nodes.len() && 0 <= j < nodes.len() && #[trigger] nodes[i] == #[trigger] nodes[j]
            ==> i == j
}

pub open spec fn arena_wf(nodes: Seq<ExprNode>) -> bool {
    arena_closed(nodes) && arena_distinct(nodes)
}

/// The tree that the handle `e` stands for in a closed arena.
pub open spec fn term_of(nodes: Seq<ExprNode>, e: int) -> Term
    decreases e,
{
    if 0 <= e < nodes.len() {
        match nodes[e] {
            ExprNode::Bound => Term::Bound,
            ExprNode::Free(n) => Term::Free(n),
            ExprNode::Constant(c) => Term::Constant(c),
            ExprNode::Hole(k, a) => if a < e {
                Term::Hole(k, Box::new(term_of(nodes, a as int)))
            } else {
                Term::Bound
            },
            ExprNode::UnaryOp(op, a) => if a < e {
                Term::UnaryOp(op, Box::new(term_of(nodes, a as int)))
            } else {
                Term::Bound
            },
            ExprNode::BinaryOp(op, a, b) => if a < e && b < e {
                Term::BinaryOp(
                    op,
                    Box::new(term_of(nodes, a as int)),
                    Box::new(term_of(nodes, b as int)),
                )
            } else {
                Term::Bound
            },
            ExprNode::Nil => Term::Nil,
            ExprNode::Cons(a, b) => if a < e && b < e {
                Term::Cons(Box::new(term_of(nodes, a as int)), Box::new(term_of(nodes, b as int)))
            } else {
                Term::Bound
            },
        }
    } else {
        Term::Bound
    }
}

/// What interning `node` into `nodes` gives: the arena afterwards and the
/// handle of the node.
pub open spec fn intern_spec(nodes: Seq<ExprNode>, node: ExprNode) -> (Seq<ExprNode>, ExprId) {
    if nodes.contains(node) {
        (nodes, nodes.index_of(node) as usize)
    } else {
        (nodes.push(node), nodes.len() as usize)
    }
}

/// `later` holds every node of `earlier` under the same handle.
pub open spec fn arena_extends(later: Seq<ExprNode>, earlier: Seq<ExprNode>) -> bool {
    earlier.len() <= later.len() && forall|i: int|
        0 <= i < earlier.len() ==> #[trigger] later[i] == earlier[i]
}

/// The number that stands for an operator in the hash of a node.
pub open spec fn op_index(op: BinOp) -> int {
    match op {
        BinOp::Eq => 0,
        BinOp::Ne => 1,
        BinOp::Gt => 2,
        BinOp::Ge => 3,
        BinOp::Lt => 4,
        BinOp::Le => 5,
        BinOp::And => 6,
        BinOp::Or => 7,
        BinOp::Add => 8,
        BinOp::Sub => 9,
        BinOp::Mul => 10,
        BinOp::Div => 11,
    }
}

/// A tag and two numbers mixed into one.
pub open spec fn mix(tag: int, a: int, b: int) -> usize {
    ((tag + 7 * a + 13 * b) % 0x1_0000_0000) as usize
}

/// The structural hash of a node: a number that depends on nothing but
/// what the node is made of.
pub open spec fn hash_spec(node: ExprNode) -> usize {
    match node {
        ExprNode::Bound => mix(0, 0, 0),
        ExprNode::Free(x) => mix(1, x as int, 0),
        ExprNode::Constant(Constant::Bool(b)) => mix(
            2,
            if b {
                1
            } else {
                0
            },
            0,
        ),
        ExprNode::Constant(Constant::Int(sign, n)) => mix(
            3,
            (n as int) % 0x1_0000_0000,
            if sign is Negative {
                1
            } else {
                0
            },
        ),
        ExprNode::Hole(k, a) => mix(4, k as int, a as int),
        ExprNode::UnaryOp(op, a) => mix(
            if op is Not {
                5
            } else {
                6
            },
            a as int,
            0,
        ),
        ExprNode::BinaryOp(op, a, b) => mix(7 + op_index(op), a as int, b as int),
        ExprNode::Nil => mix(19, 0, 0),
        ExprNode::Cons(a, b) => mix(20, a as int, b as int),
    }
}

fn mix_exec(tag: u128, a: u128, b: u128) -> (h: usize)
    requires
        tag < 32,
        a <= usize::MAX,
        b <= usize::MAX,
    ensures
        h == mix(tag as int, a as int, b as int),
{
    ((tag + 7 * a + 13 * b) % 0x1_0000_0000) as usize
}

/// The structural hash of a node.
pub fn hash(node: ExprNode) -> (h: usize)
    ensures
        h == hash_spec(node),
{
    match node {
        ExprNode::Bound => mix_exec(0, 0, 0),
        ExprNode::Free(x) => mix_exec(1, x as u128, 0),
        ExprNode::Constant(Constant::Bool(b)) => mix_exec(
            2,
            if b {
                1
            } else {
                0
            },
            0,
        ),
        ExprNode::Constant(Constant::Int(sign, n)) => mix_exec(
            3,
            n % 0x1_0000_0000,
            match sign {
                Sign::Negative => 1,
                Sign::Positive => 0,
            },
        ),
        ExprNode::Hole(k, a) => mix_exec(4, k as u128, a as u128),
        ExprNode::UnaryOp(op, a) => mix_exec(
            match op {
                UnOp::Not => 5,
                UnOp::Neg => 6,
            },
            a as u128,
            0,
        ),
        ExprNode::BinaryOp(op, a, b) => {
            let k: u128 = match op {
                BinOp::Eq => 0,
                BinOp::Ne => 1,
                BinOp::Gt => 2,
                BinOp::Ge => 3,
                BinOp::Lt => 4,
                BinOp::Le => 5,
                BinOp::And => 6,
                BinOp::Or => 7,
                BinOp::Add => 8,
                BinOp::Sub => 9,
                BinOp::Mul => 10,
                BinOp::Div => 11,
            };
            mix_exec(7 + k, a as u128, b as u128)
        },
        ExprNode::Nil => mix_exec(19, 0, 0),
        ExprNode::Cons(a, b) => mix_exec(20, a as u128, b as u128),
    }
}

/// The buckets index the arena: every handle is in the bucket of the hash
/// of its node, and every entry of a bucket is a handle.
pub open spec fn buckets_match(nodes: Seq<ExprNode>, buckets: Map<usize, Vec<ExprId>>) -> bool {
    &&& forall|i: int|
        0 <= i < nodes.len() ==> buckets.contains_key(hash_spec(#[trigger] nodes[i])) && buckets[hash_spec(
            nodes[i],
        )]@.contains(i as usize)
    &&& forall|h: usize, k: int|
        buckets.contains_key(h) && 0 <= k < buckets[h]@.len() ==> (#[trigger] buckets[h]@[k]) < nodes.len()
}

/// The arena of expressions, keyed by structural hash.
pub struct Interner {
    nodes: Vec<ExprNode>,
    /// The handles of the nodes of each hash.
    buckets: FxHashMap<usize, Vec<ExprId>>,
}

impl View for Interner {
    type V = Seq<ExprNode>;

    closed spec fn view(&self) -> Seq<ExprNode> {
        self.nodes@
    }
}

/// Adds a node that the arena lacks, and enters its handle in the bucket
/// of its hash.
fn add_node(nodes: &mut Vec<ExprNode>, buckets: &mut FxHashMap<usize, Vec<ExprId>>, node: ExprNode) -> (e:
    ExprId)
    requires
        buckets_match(old(nodes)@, old(buckets)@),
    ensures
        final(nodes)@ == old(nodes)@.push(node),
        e == old(nodes)@.len(),
        buckets_match(final(nodes)@, final(buckets)@),
{
    let e = nodes.len();
    let h = hash(node);
    nodes.push(node);
    let mut bucket = match fx_remove(buckets, h) {
        Some(bucket) => bucket,
        None => Vec::new(),
    };
    let ghost before = bucket@;
    bucket.push(e);
    let _ = fx_insert(buckets, h, bucket);
    proof {
        assert(bucket@[before.len() as int] == e);
        assert forall|i: int| 0 <= i < nodes@.len() implies buckets@.contains_key(
            hash_spec(#[trigger] nodes@[i]),
        ) && buckets@[hash_spec(nodes@[i])]@.contains(i as usize) by {
            if i < e {
                assert(nodes@[i] == old(nodes)@[i]);
                let hi = hash_spec(nodes@[i]);
                if hi == h {
                    let k = choose|k: int| 0 <= k < before.len() && before[k] == i as usize;
                    assert(bucket@[k] == i as usize);
                } else {
                    assert(buckets@[hi] == old(buckets)@[hi]);
                }
            }
        }
        assert forall|g: usize, k: int| buckets@.contains_key(g) && 0 <= k < buckets@[g]@.len() implies (
        #[trigger] buckets@[g]@[k]) < nodes@.len() by {
            if g == h {
                if k < before.len() {
                    assert(bucket@[k] == before[k]);
                    assert(old(buckets)@[h]@[k] < old(nodes)@.len());
                }
            } else {
                assert(old(buckets)@[g]@[k] < old(nodes)@.len());
            }
        }
    }
    e
}

impl Interner {
    pub open spec fn wf(&self) -> bool {
        arena_wf(self@)
    }

    /// Whether every child of a node is a handle of the arena.
    pub fn admits(&self, node: ExprNode) -> (r: bool)
        ensures
            r == node.children_below(self@.len()),
    {
        match node {
            ExprNode::Hole(_, e) => e < self.nodes.len(),
            ExprNode::UnaryOp(_, e) => e < self.nodes.len(),
            ExprNode::BinaryOp(_, e1, e2) => e1 < self.nodes.len() && e2 < self.nodes.len(),
            ExprNode::Cons(e1, e2) => e1 < self.nodes.len() && e2 < self.nodes.len(),
            _ => true,
        }
    }

    /// Interns a node whose children are handles of the arena; any other
    /// node is turned away, and the arena stays as it is.
    pub fn try_intern(&mut self, node: ExprNode) -> (r: Option<ExprId>)
        requires
            old(self).wf(),
        ensures
            match r {
                Some(e) => node.children_below(old(self)@.len()) && (final(self)@, e) == intern_spec(
                    old(self)@,
                    node,
                ),
                None => !node.children_below(old(self)@.len()) && final(self)@ == old(self)@,
            },
            final(self).wf(),
            arena_extends(final(self)@, old(self)@),
    {
        if self.admits(node) {
            Some(self.intern(node))
        } else {
            None
        }
    }

    #[verifier::type_invariant]
    closed spec fn indexed(&self) -> bool {
        buckets_match(self.nodes@, self.buckets@)
    }

    pub fn new() -> (s: Interner)
        ensures
            s@ == Seq::<ExprNode>::empty(),
            s.wf(),
    {
        Interner { nodes: Vec::new(), buckets: fx_new() }
    }

    /// The number of expressions stored.
    pub fn len(&self) -> (n: usize)
        ensures
            n == self@.len(),
    {
        self.nodes.len()
    }

    /// The node stored under a handle.
    pub fn get(&self, e: ExprId) -> (node: ExprNode)
        requires
            e < self@.len(),
        ensures
            node == self@[e as int],
    {
        self.nodes[e]
    }

    /// The handle of `node` if the arena holds it. Only the nodes of the
    /// same hash are looked at.
    pub fn find(&self, node: ExprNode) -> (r: Option<ExprId>)
        ensures
            match r {
                Some(e) => e < self@.len() && self@[e as int] == node,
                None => !self@.contains(node),
            },
    {
        proof {
            use_type_invariant(self);
        }
        let bucket = match fx_get(&self.buckets, hash(node)) {
            Some(bucket) => bucket,
            None => {
                return None;
            },
        };
        let mut k: usize = 0;
        while k < bucket.len()
            invariant
                k <= bucket.len(),
                buckets_match(self.nodes@, self.buckets@),
                self.buckets@.contains_key(hash_spec(node)),
                bucket == self.buckets@[hash_spec(node)],
                forall|j: int| 0 <= j < k ==> self.nodes@[bucket@[j] as int] != node,
            decreases bucket.len() - k,
        {
            let e = bucket[k];
            if self.nodes[e] == node {
                return Some(e);
            }
            k = k + 1;
        }
        let n = self.nodes.len();
        proof {
            if self@.contains(node) {
                let i = choose|i: int| 0 <= i < self@.len() && self@[i] == node;
                assert(self.nodes@[i] == node);
                assert(bucket@.contains(i as usize));
                let j = choose|j: int| 0 <= j < bucket@.len() && bucket@[j] == i as usize;
                assert(self.nodes@[bucket@[j] as int] == node);
            }
        }
        None
    }

    /// Stores `node` unless the arena holds it already, and returns its
    /// handle. Nothing that was stored before changes, and storing the
    /// node again gives the same handle and stores nothing.
    pub fn intern(&mut self, node: ExprNode) -> (e: ExprId)
        requires
            old(self).wf(),
            node.children_below(old(self)@.len()),
        ensures
            (final(self)@, e) == intern_spec(old(self)@, node),
            final(self).wf(),
            arena_extends(final(self)@, old(self)@),
            e < final(self)@.len(),
            final(self)@[e as int] == node,
            intern_spec(final(self)@, node) == (final(self)@, e),
    {
        let e = match self.find(node) {
            Some(e) => e,
            None => {
                proof {
                    use_type_invariant(&*self);
                }
                // The arena is taken apart, extended, and put together
                // again: in between, the buckets are behind the nodes.
                let mut taken = Interner::new();
                core::mem::swap(self, &mut taken);
                let Interner { nodes, buckets } = taken;
                let mut nodes = nodes;
                let mut buckets = buckets;
                let e = add_node(&mut nodes, &mut buckets, node);
                *self = Interner { nodes, buckets };
                e
            },
        };
        proof {
            assert(self@[e as int] == node);
            assert(self@.contains(node));
            let k = self@.index_of(node);
            assert(self@[k] == node);
        }
        e
    }
}

/// The conjunction of the expressions of a list from the `i`-th on: the
/// arena afterwards and the handle of the list.
pub open spec fn conj_spec(nodes: Seq<ExprNode>, items: Seq<ExprId>, i: int) -> (Seq<ExprNode>, ExprId)
    decreases items.len() - i,
{
    if i < 0 || i >= items.len() {
        intern_spec(nodes, ExprNode::Nil)
    } else {
        let (n1, rest) = conj_spec(nodes, items, i + 1);
        intern_spec(n1, ExprNode::Cons(items[i], rest))
    }
}

impl Interner {
    /// The conjunction of a list of expressions, in their order.
    pub fn conj(&mut self, items: &Vec<ExprId>) -> (e: ExprId)
        requires
            old(self).wf(),
            forall|i: int| 0 <= i < items@.len() ==> #[trigger] items@[i] < old(self)@.len(),
        ensures
            (final(self)@, e) == conj_spec(old(self)@, items@, 0),
            final(self).wf(),
            arena_extends(final(self)@, old(self)@),
            e < final(self)@.len(),
    {
        let mut acc = self.intern(ExprNode::Nil);
        let mut k: usize = items.len();
        while k > 0
            invariant
                k <= items@.len(),
                self.wf(),
                arena_extends(self@, old(self)@),
                forall|i: int| 0 <= i < items@.len() ==> #[trigger] items@[i] < old(self)@.len(),
                acc < self@.len(),
                (self@, acc) == conj_spec(old(self)@, items@, k as int),
            decreases k,
        {
            k = k - 1;
            acc = self.intern(ExprNode::Cons(items[k], acc));
        }
        acc
    }
}

/// What interning does to a well-formed arena: the arena stays well
/// formed and keeps what it held, and the handle returned is that of the
/// node.
pub proof fn lemma_intern_spec(nodes: Seq<ExprNode>, node: ExprNode)
    requires
        arena_wf(nodes),
        node.children_below(nodes.len()),
        nodes.len() < usize::MAX,
    ensures
        arena_wf(intern_spec(nodes, node).0),
        arena_extends(intern_spec(nodes, node).0, nodes),
        intern_spec(nodes, node).1 < intern_spec(nodes, node).0.len(),
        intern_spec(nodes, node).0[intern_spec(nodes, node).1 as int] == node,
        intern_spec(nodes, node).0.len() <= nodes.len() + 1,
{
    let (after, e) = intern_spec(nodes, node);
    if nodes.contains(node) {
        let k = nodes.index_of(node);
        assert(nodes[k] == node);
    } else {
        assert forall|i: int, j: int|
            0 <= i < after.len() && 0 <= j < after.len() && #[trigger] after[i] == #[trigger] after[j]
            implies i == j by {
            if i < nodes.len() && j < nodes.len() {
                assert(nodes[i] == nodes[j]);
            } else if i < nodes.len() {
                assert(nodes[i] == node);
                assert(nodes.contains(node));
            } else if j < nodes.len() {
                assert(nodes[j] == node);
                assert(nodes.contains(node));
            }
        }
        assert forall|i: int| 0 <= i < after.len() implies (#[trigger] after[i]).children_below(
            i as nat,
        ) by {
            if i < nodes.len() {
                assert(nodes[i].children_below(i as nat));
            }
        }
    }
}

/// In a closed arena, a tree determines the node at its root.
proof fn lemma_term_root(nodes: Seq<ExprNode>, i: int, j: int)
    requires
        arena_closed(nodes),
        0 <= i < nodes.len(),
        0 <= j < nodes.len(),
        term_of(nodes, i) == term_of(nodes, j),
        arena_distinct(nodes),
    ensures
        i == j,
    decreases i,
{
    let ni = nodes[i];
    let nj = nodes[j];
    assert(ni.children_below(i as nat));
    assert(nj.children_below(j as nat));
    match ni {
        ExprNode::Hole(k, a) => {
            match nj {
                ExprNode::Hole(k2, a2) => {
                    lemma_term_root(nodes, a as int, a2 as int);
                },
                _ => {},
            }
        },
        ExprNode::UnaryOp(op, a) => {
            match nj {
                ExprNode::UnaryOp(op2, a2) => {
                    lemma_term_root(nodes, a as int, a2 as int);
                },
                _ => {},
            }
        },
        ExprNode::BinaryOp(op, a, b) => {
            match nj {
                ExprNode::BinaryOp(op2, a2, b2) => {
                    lemma_term_root(nodes, a as int, a2 as int);
                    lemma_term_root(nodes, b as int, b2 as int);
                },
                _ => {},
            }
        },
        ExprNode::Cons(a, b) => {
            match nj {
                ExprNode::Cons(a2, b2) => {
                    lemma_term_root(nodes, a as int, a2 as int);
                    lemma_term_root(nodes, b as int, b2 as int);
                },
                _ => {},
            }
        },
        _ => {},
    }
    assert(ni == nj);
}

/// Interning is idempotent: two handles of a well-formed arena that stand
/// for structurally equal expressions are the same handle.
pub proof fn law_structural_equality_is_handle_equality(s: Interner, e1: ExprId, e2: ExprId)
    requires
        s.wf(),
        e1 < s@.len(),
        e2 < s@.len(),
        term_of(s@, e1 as int) == term_of(s@, e2 as int),
    ensures
        e1 == e2,
{
    lemma_term_root(s@, e1 as int, e2 as int);
}

/// Interning a node a second time gives the handle of the first time and
/// stores nothing.
pub proof fn law_intern_twice(nodes: Seq<ExprNode>, node: ExprNode)
    requires
        arena_wf(nodes),
        node.children_below(nodes.len()),
        nodes.len() < usize::MAX,
    ensures
        intern_spec(intern_spec(nodes, node).0, node) == intern_spec(nodes, node),
{
    let (after, e) = intern_spec(nodes, node);
    if nodes.contains(node) {
    } else {
        assert(after[nodes.len() as int] == node);
        assert(after.contains(node));
        let k = after.index_of(node);
        assert(after[k] == node);
        if k < nodes.len() {
            assert(nodes[k] == node);
            assert(nodes.contains(node));
        }
    }
}

} // verus!
