//! The intermediate representation that is checked: a function body as a
//! graph of basic blocks.

use vstd::prelude::*;
use crate::result::Span;
use crate::ty::{FnId, IntTy, Ty, UintTy};

verus! {

/// A variable of a function body, by index.
pub type Local = usize;

/// A basic block of a function body, by index.
pub type BasicBlock = usize;

/// The local that holds the value a function returns.
pub const RETURN_PLACE: Local = 0;

/// The block at which a function is entered.
pub const START_BLOCK: BasicBlock = 0;

/// A local, seen through a number of dereferences.
#[derive(Clone, Copy, Debug, PartialEq, Eq, Structural)]
pub struct Place {
    pub local: Local,
    pub derefs: usize,
}

#[derive(Clone, Copy, Debug, PartialEq, Eq, Structural)]
pub enum Constant {
    Int(i128, IntTy),
    Uint(u128, UintTy),
    Bool(bool),
}

#[derive(Clone, Copy, Debug, PartialEq, Eq, Structural)]
pub enum Operand {
    Copy(Place),
    Move(Place),
    Constant(Constant),
}

#[derive(Clone, Copy, Debug, PartialEq, Eq, Structural)]
pub enum UnOp {
    Not,
    Neg,
}

#[derive(Clone, Copy, Debug, PartialEq, Eq, Structural)]
pub enum BinOp {
    Eq,
    Ne,
    Add,
    Sub,
    Mul,
    Div,
    Gt,
    Lt,
    Le,
}

#[derive(Clone, Copy, Debug, PartialEq, Eq, Structural)]
pub enum Rvalue {
    Use(Operand),
    UnaryOp(UnOp, Operand),
    BinaryOp(BinOp, Operand, Operand),
    /// A mutable reference to a place.
    MutRef(Place),
}

#[derive(Clone, Copy, Debug, PartialEq, Eq, Structural)]
pub enum Statement {
    Assign(Place, Rvalue),
    Nop,
}

#[derive(Debug)]
pub enum TerminatorKind {
    Return,
    Goto { target: BasicBlock },
    /// A branch on the value of the discriminant: to the target of the
    /// first branch whose value it has, else to `otherwise`.
    SwitchInt { discr: Operand, branches: Vec<(u128, BasicBlock)>, otherwise: BasicBlock },
    /// A call of `func`. `substs` are the types that the call gives for
    /// the type parameters of the callee; a signature has none, and the
    /// rule of a call is the same whatever they are.
    Call { func: FnId, substs: Vec<Ty>, args: Vec<Operand>, destination: Option<(Place, BasicBlock)> },
    Drop { place: Place, target: BasicBlock },
}

#[derive(Debug)]
pub struct Terminator {
    pub kind: TerminatorKind,
    pub source_info: Span,
}

#[derive(Debug)]
pub struct BasicBlockData {
    pub statements: Vec<Statement>,
    pub terminator: Option<Terminator>,
}

/// A function body. Of its locals, the first is the return place, the next
/// `nargs` are the arguments, the rest are variables and temporaries.
#[derive(Debug)]
pub struct Body {
    pub basic_blocks: Vec<BasicBlockData>,
    pub nlocals: usize,
    pub nargs: usize,
    /// The blocks in reverse postorder of a traversal from the start block.
    pub reverse_postorder: Vec<BasicBlock>,
    /// For each block, the block that immediately dominates it.
    pub immediate_dominators: Vec<BasicBlock>,
}

/// The targets of the first `n` branches.
pub open spec fn branch_targets(branches: Seq<(u128, BasicBlock)>, n: int) -> Seq<BasicBlock>
    decreases n,
{
    if n <= 0 || n > branches.len() {
        Seq::empty()
    } else {
        branch_targets(branches, n - 1).push(branches[n - 1].1)
    }
}

/// How often `x` occurs in `s`.
pub open spec fn occurrences(s: Seq<BasicBlock>, x: BasicBlock) -> nat
    decreases s.len(),
{
    if s.len() == 0 {
        0
    } else {
        occurrences(s.drop_last(), x) + if s.last() == x {
            1nat
        } else {
            0nat
        }
    }
}

proof fn lemma_occurrences_push(s: Seq<BasicBlock>, y: BasicBlock, x: BasicBlock)
    ensures
        occurrences(s.push(y), x) == occurrences(s, x) + if y == x {
            1nat
        } else {
            0nat
        },
        occurrences(Seq::<BasicBlock>::empty(), x) == 0,
        occurrences(seq![y], x) == if y == x {
            1nat
        } else {
            0nat
        },
{
    assert(s.push(y).drop_last() =~= s);
    assert(seq![y] =~= Seq::<BasicBlock>::empty().push(y));
    assert(Seq::<BasicBlock>::empty().push(y).drop_last() =~= Seq::<BasicBlock>::empty());
}

impl TerminatorKind {
    /// The blocks that control may pass to, one entry for each edge.
    pub open spec fn successors(&self) -> Seq<BasicBlock> {
        match self {
            TerminatorKind::Return => Seq::empty(),
            TerminatorKind::Goto { target } => seq![*target],
            TerminatorKind::SwitchInt { discr, branches, otherwise } => branch_targets(
                branches@,
                branches@.len() as int,
            ).push(*otherwise),
            TerminatorKind::Call { func, substs, args, destination } => match destination {
                Some((_, bb)) => seq![*bb],
                None => Seq::empty(),
            },
            TerminatorKind::Drop { place, target } => seq![*target],
        }
    }

    /// Whether at least `k` edges of the terminator lead to `bb`, for `k`
    /// up to 2: the result is the number of such edges, or 2 if there are
    /// more.
    fn edges_to(&self, bb: BasicBlock) -> (n: usize)
        ensures
            n <= 2,
            n == if occurrences(self.successors(), bb) >= 2 {
                2
            } else {
                occurrences(self.successors(), bb)
            },
    {
        match self {
            TerminatorKind::Return => {
                proof {
                    lemma_occurrences_push(Seq::empty(), bb, bb);
                }
                0
            },
            TerminatorKind::Goto { target } => {
                proof {
                    lemma_occurrences_push(Seq::empty(), *target, bb);
                }
                if *target == bb {
                    1
                } else {
                    0
                }
            },
            TerminatorKind::SwitchInt { discr, branches, otherwise } => {
                let mut n: usize = 0;
                let mut i: usize = 0;
                while i < branches.len()
                    invariant
                        i <= branches.len(),
                        n <= 2,
                        n == if occurrences(branch_targets(branches@, i as int), bb) >= 2 {
                            2
                        } else {
                            occurrences(branch_targets(branches@, i as int), bb)
                        },
                    decreases branches.len() - i,
                {
                    proof {
                        lemma_occurrences_push(branch_targets(branches@, i as int), branches@[i as int].1, bb);
                    }
                    if branches[i].1 == bb && n < 2 {
                        n = n + 1;
                    }
                    i = i + 1;
                }
                proof {
                    lemma_occurrences_push(
                        branch_targets(branches@, branches@.len() as int),
                        *otherwise,
                        bb,
                    );
                }
                if *otherwise == bb && n < 2 {
                    n = n + 1;
                }
                n
            },
            TerminatorKind::Call { func, substs, args, destination } => {
                match destination {
                    Some((_, target)) => {
                        proof {
                    lemma_occurrences_push(Seq::empty(), *target, bb);
                }
                        if *target == bb {
                            1
                        } else {
                            0
                        }
                    },
                    None => {
                        proof {
                            lemma_occurrences_push(Seq::empty(), bb, bb);
                        }
                        0
                    },
                }
            },
            TerminatorKind::Drop { place, target } => {
                proof {
                    lemma_occurrences_push(Seq::empty(), *target, bb);
                }
                if *target == bb {
                    1
                } else {
                    0
                }
            },
        }
    }
}

impl BasicBlockData {
    /// The blocks that control may pass to from this block.
    pub open spec fn successors(&self) -> Seq<BasicBlock> {
        match self.terminator {
            Some(t) => t.kind.successors(),
            None => Seq::empty(),
        }
    }
}

/// The number of edges into `bb` from the first `n` blocks.
pub open spec fn edges_into(blocks: Seq<BasicBlockData>, bb: BasicBlock, n: int) -> nat
    decreases n,
{
    if n <= 0 || n > blocks.len() {
        0
    } else {
        edges_into(blocks, bb, n - 1) + occurrences(blocks[n - 1].successors(), bb)
    }
}

impl Body {
    /// The number of edges of the graph that lead to `bb`.
    pub open spec fn predecessors(&self, bb: BasicBlock) -> nat {
        edges_into(self.basic_blocks@, bb, self.basic_blocks@.len() as int)
    }

    /// A join point is a block with more than one predecessor.
    pub open spec fn is_join_point_spec(&self, bb: BasicBlock) -> bool {
        self.predecessors(bb) > 1
    }

    pub fn is_join_point(&self, bb: BasicBlock) -> (r: bool)
        ensures
            r == self.is_join_point_spec(bb),
    {
        let mut n: usize = 0;
        let mut i: usize = 0;
        while i < self.basic_blocks.len()
            invariant
                i <= self.basic_blocks.len(),
                n <= 2,
                n == if edges_into(self.basic_blocks@, bb, i as int) >= 2 {
                    2
                } else {
                    edges_into(self.basic_blocks@, bb, i as int)
                },
            decreases self.basic_blocks.len() - i,
        {
            let k = match &self.basic_blocks[i].terminator {
                Some(t) => t.kind.edges_to(bb),
                None => 0,
            };
            n = if n + k >= 2 {
                2
            } else {
                n + k
            };
            i = i + 1;
        }
        n > 1
    }

    /// The join points of the body, in the order of the blocks.
    pub fn join_points(&self) -> (r: Vec<BasicBlock>)
        ensures
            forall|bb: BasicBlock|
                r@.contains(bb) <==> bb < self.basic_blocks@.len() && self.is_join_point_spec(bb),
            forall|i: int, j: int| 0 <= i < j < r@.len() ==> r@[i] < r@[j],
    {
        let mut r: Vec<BasicBlock> = Vec::new();
        let mut bb: usize = 0;
        while bb < self.basic_blocks.len()
            invariant
                bb <= self.basic_blocks.len(),
                forall|b: BasicBlock| r@.contains(b) <==> b < bb && self.is_join_point_spec(b),
                forall|i: int, j: int| 0 <= i < j < r@.len() ==> r@[i] < r@[j],
                forall|i: int| 0 <= i < r@.len() ==> r@[i] < bb,
            decreases self.basic_blocks.len() - bb,
        {
            if self.is_join_point(bb) {
                let ghost before = r@;
                r.push(bb);
                assert(r@[before.len() as int] == bb);
                assert forall|b: BasicBlock| r@.contains(b) <==> b < bb + 1
                    && self.is_join_point_spec(b) by {
                    if r@.contains(b) {
                        let k = choose|k: int| 0 <= k < r@.len() && r@[k] == b;
                        if k < before.len() {
                            assert(before[k] == b);
                            assert(before.contains(b));
                        }
                    }
                    if b < bb + 1 && self.is_join_point_spec(b) {
                        if b < bb {
                            assert(before.contains(b));
                            let k = choose|k: int| 0 <= k < before.len() && before[k] == b;
                            assert(r@[k] == b);
                        }
                    }
                }
            }
            bb = bb + 1;
        }
        r
    }
}

} // verus!
