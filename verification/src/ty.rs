//! Base types, refinement types and the nodes of refinement expressions.

use vstd::prelude::*;

verus! {

/// A logical variable of the constraint language.
pub type Name = usize;

/// A handle to an interned refinement expression.
pub type ExprId = usize;

/// An unknown predicate over one value, created when a join point
/// publishes its template.
pub type HoleId = usize;

/// An abstract memory cell reachable through a mutable reference.
pub type RegionId = usize;

/// A function of the program under check.
pub type FnId = usize;

#[derive(Clone, Copy, Debug, PartialEq, Eq, Structural)]
pub enum IntTy {
    I8,
    I16,
    I32,
    I64,
    I128,
    Isize,
}

#[derive(Clone, Copy, Debug, PartialEq, Eq, Structural)]
pub enum UintTy {
    U8,
    U16,
    U32,
    U64,
    U128,
    Usize,
}

impl IntTy {
    /// The least magnitude that the type holds only as a negative number:
    /// two to the power of its bits less one. A pointer is taken to have 64
    /// bits.
    pub open spec fn half_range(self) -> nat {
        match self {
            IntTy::I8 => 0x80,
            IntTy::I16 => 0x8000,
            IntTy::I32 => 0x8000_0000,
            IntTy::I64 => 0x8000_0000_0000_0000,
            IntTy::I128 => 0x8000_0000_0000_0000_0000_0000_0000_0000,
            IntTy::Isize => 0x8000_0000_0000_0000,
        }
    }

    fn half(self) -> (h: u128)
        ensures
            h == self.half_range(),
    {
        match self {
            IntTy::I8 => 0x80,
            IntTy::I16 => 0x8000,
            IntTy::I32 => 0x8000_0000,
            IntTy::I64 => 0x8000_0000_0000_0000,
            IntTy::I128 => 0x8000_0000_0000_0000_0000_0000_0000_0000,
            IntTy::Isize => 0x8000_0000_0000_0000,
        }
    }
}

#[derive(Clone, Copy, Debug, PartialEq, Eq, Structural)]
pub enum BaseTy {
    Unit,
    Bool,
    Int(IntTy),
    Uint(UintTy),
}

/// The sort of a logical variable.
#[derive(Clone, Copy, Debug, PartialEq, Eq, Structural)]
pub enum Sort {
    Int,
    Bool,
}

#[derive(Clone, Copy, Debug, PartialEq, Eq, Structural)]
pub enum UnOp {
    Not,
    Neg,
}

#[derive(Clone, Copy, Debug, PartialEq, Eq, Structural)]
pub enum BinOp {
    Eq,
    Ne,
    Gt,
    Ge,
    Lt,
    Le,
    And,
    Or,
    Add,
    Sub,
    Mul,
    Div,
}

#[derive(Clone, Copy, Debug, PartialEq, Eq, Structural)]
pub enum Sign {
    Positive,
    Negative,
}

/// A literal of the constraint language. An integer is a sign and a
/// magnitude, so that every value of every machine integer type fits.
#[derive(Clone, Copy, Debug, PartialEq, Eq, Structural)]
pub enum Constant {
    Int(Sign, u128),
    Bool(bool),
}

/// One node of a refinement expression. Children are handles to nodes that
/// were interned earlier.
#[derive(Clone, Copy, Debug, PartialEq, Eq, Structural)]
pub enum ExprNode {
    /// The implicit binder of a refinement: the value being described.
    Bound,
    Free(Name),
    Constant(Constant),
    /// A hole said of a value: of the implicit binder in a template, of a
    /// named value once the template is used.
    Hole(HoleId, ExprId),
    UnaryOp(UnOp, ExprId),
    BinaryOp(BinOp, ExprId, ExprId),
    /// The conjunction of no expression, which holds always: the end of
    /// every list of conjuncts.
    Nil,
    /// The conjunction of a list of expressions: of the first, and of
    /// those that the rest, itself a list, is the conjunction of.
    Cons(ExprId, ExprId),
}

/// A refinement type.
#[derive(Clone, Copy, Debug, PartialEq, Eq, Structural)]
pub enum Ty {
    /// The values of a base type that satisfy a predicate, in which the
    /// implicit binder stands for the value itself. The predicate "the
    /// value equals `e`", where `e` does not mention the value, pins the
    /// value down: what has such a type is known to be `e`.
    Refine(BaseTy, ExprId),
    /// A mutable reference to a region.
    MutRef(RegionId),
    /// A slot without a live value: not yet written, or moved out.
    Uninit,
    /// A function value, named by the function it stands for.
    Func(FnId),
}

impl BaseTy {
    /// The logical sort in which values of the base type are described.
    pub open spec fn sort_spec(self) -> Sort {
        match self {
            BaseTy::Bool => Sort::Bool,
            _ => Sort::Int,
        }
    }

    pub fn sort(self) -> (s: Sort)
        ensures
            s == self.sort_spec(),
    {
        match self {
            BaseTy::Bool => Sort::Bool,
            _ => Sort::Int,
        }
    }

    pub open spec fn is_numeric(self) -> bool {
        self is Int || self is Uint
    }
}

impl Constant {
    /// The integer that a literal denotes; a boolean counts as 0 or 1.
    pub open spec fn value(self) -> int {
        match self {
            Constant::Int(Sign::Positive, n) => n as int,
            Constant::Int(Sign::Negative, n) => -(n as int),
            Constant::Bool(b) => if b { 1 } else { 0 },
        }
    }

    /// The literal of a signed integer: its sign and its magnitude.
    pub open spec fn from_i128_spec(n: i128) -> Constant {
        if n >= 0 {
            Constant::Int(Sign::Positive, n as u128)
        } else {
            Constant::Int(Sign::Negative, (-(n as int)) as u128)
        }
    }

    /// The literal zero.
    pub open spec fn zero() -> Constant {
        Constant::Int(Sign::Positive, 0)
    }

    pub fn from_i128(n: i128) -> (c: Constant)
        ensures
            c == Constant::from_i128_spec(n),
            c.value() == n,
    {
        if n >= 0 {
            Constant::Int(Sign::Positive, n as u128)
        } else {
            let m: u128 = ((-(n + 1)) as u128) + 1;
            Constant::Int(Sign::Negative, m)
        }
    }

    pub fn from_u128(n: u128) -> (c: Constant)
        ensures
            c == Constant::Int(Sign::Positive, n),
    {
        Constant::Int(Sign::Positive, n)
    }

    /// The literal that the bits of a machine integer stand for: the bits
    /// themselves for an unsigned type and for a boolean, their reading in
    /// two's complement for a signed type. Bits beyond the width of the
    /// type are taken as they are.
    pub open spec fn from_bits_spec(bty: BaseTy, bits: u128) -> Constant {
        match bty {
            BaseTy::Int(ity) => if bits < ity.half_range() || bits >= 2 * ity.half_range() {
                Constant::Int(Sign::Positive, bits)
            } else {
                Constant::Int(Sign::Negative, (2 * ity.half_range() - bits) as u128)
            },
            _ => Constant::Int(Sign::Positive, bits),
        }
    }

    pub fn from_bits(bty: BaseTy, bits: u128) -> (c: Constant)
        ensures
            c == Constant::from_bits_spec(bty, bits),
    {
        match bty {
            BaseTy::Int(ity) => {
                let h = ity.half();
                if bits < h {
                    Constant::Int(Sign::Positive, bits)
                } else if bits - h < h {
                    Constant::Int(Sign::Negative, h - (bits - h))
                } else {
                    Constant::Int(Sign::Positive, bits)
                }
            },
            _ => Constant::Int(Sign::Positive, bits),
        }
    }

    pub fn from_bool(b: bool) -> (c: Constant)
        ensures
            c == Constant::Bool(b),
    {
        Constant::Bool(b)
    }
}

impl ExprNode {
    /// Every child of the node is a handle below `n`.
    pub open spec fn children_below(self, n: nat) -> bool {
        match self {
            ExprNode::Hole(_, e) => e < n,
            ExprNode::UnaryOp(_, e) => e < n,
            ExprNode::BinaryOp(_, e1, e2) => e1 < n && e2 < n,
            ExprNode::Cons(e1, e2) => e1 < n && e2 < n,
            _ => true,
        }
    }
}

impl Ty {
    /// The expression of the type, if it has one, is a handle below `n`.
    pub open spec fn expr_below(self, n: nat) -> bool {
        match self {
            Ty::Refine(_, e) => e < n,
            _ => true,
        }
    }
}

} // verus!
