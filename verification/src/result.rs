//! What checking a function can fail with, and the solver's verdict.

use vstd::prelude::*;
use crate::ty::Ty;

verus! {

/// A range of source text, as the frontend numbers it.
#[derive(Clone, Copy, Debug, PartialEq, Eq, Structural)]
pub struct Span {
    pub lo: u32,
    pub hi: u32,
}

/// Why checking a function stopped.
#[derive(Clone, Copy, Debug, PartialEq, Eq, Structural)]
pub enum TyError {
    /// A place was read that holds no live value: it was moved out or never
    /// written. The field is the place's local.
    Ownership(usize),
    /// No substitution makes the arguments of the call at this place fit
    /// the callee's parameters.
    Inference(Span),
    /// Two types that had to agree in shape do not: `expected` is the type
    /// that was to be a subtype of `found`, or the first operand of an
    /// operator where `found` is the second. The frontend hands over
    /// well-typed programs only, so this tells of a fault in it.
    ShapeMismatch { expected: Ty, found: Ty },
    /// An operator was given an operand of a type that it does not take.
    /// This too tells of a fault in the frontend.
    Operand(Ty),
    /// The body, the signature or the table of signatures is not what the
    /// data model allows: a local, a block, a region or a function that is
    /// not there, a dereference of what is no reference, a branch over
    /// what is no boolean and no integer, a block reached twice without a
    /// join point between.
    Malformed,
}

pub type TyResult<T> = Result<T, TyError>;

/// An error with the place in the source at which it was found.
#[derive(Clone, Copy, Debug, PartialEq, Eq, Structural)]
pub struct Located {
    pub kind: TyError,
    pub span: Span,
}

/// An outcome with the place in the source put on its error.
pub open spec fn located_spec<T>(r: TyResult<T>, span: Span) -> Result<T, Located> {
    match r {
        Ok(v) => Ok(v),
        Err(kind) => Err(Located { kind, span }),
    }
}

/// Puts the place in the source on the error of an outcome.
pub fn located<T>(r: TyResult<T>, span: Span) -> (out: Result<T, Located>)
    ensures
        out == located_spec(r, span),
{
    match r {
        Ok(v) => Ok(v),
        Err(kind) => Err(Located { kind, span }),
    }
}

/// The verdict of the solver on the constraints of one function or of
/// several: the functions whose constraints it could not prove, in the order
/// in which they were reported. No failure means success.
#[derive(Debug)]
pub struct FixpointResult {
    pub failed: Vec<usize>,
}

impl View for FixpointResult {
    type V = Seq<usize>;

    open spec fn view(&self) -> Seq<usize> {
        self.failed@
    }
}

impl FixpointResult {
    /// The verdict that reports nothing: the unit of `append`.
    pub fn safe() -> (r: FixpointResult)
        ensures
            r@ == Seq::<usize>::empty(),
    {
        FixpointResult { failed: Vec::new() }
    }

    /// The verdict that reports one function.
    pub fn unsafe_at(func: usize) -> (r: FixpointResult)
        ensures
            r@ == seq![func],
    {
        let mut failed: Vec<usize> = Vec::new();
        failed.push(func);
        FixpointResult { failed }
    }

    pub fn is_safe(&self) -> (b: bool)
        ensures
            b == (self@.len() == 0),
    {
        self.failed.len() == 0
    }

    /// Both verdicts together: the failures of `self`, then those of
    /// `other`.
    pub fn append(self, other: FixpointResult) -> (r: FixpointResult)
        ensures
            r@ == self@ + other@,
    {
        let mut failed = self.failed;
        let mut i: usize = 0;
        while i < other.failed.len()
            invariant
                i <= other.failed.len(),
                failed@ == self@ + other@.subrange(0, i as int),
            decreases other.failed.len() - i,
        {
            failed.push(other.failed[i]);
            i = i + 1;
            assert(other@.subrange(0, i as int) == other@.subrange(0, i - 1).push(other@[i - 1]));
        }
        assert(other@.subrange(0, i as int) == other@);
        FixpointResult { failed }
    }
}

/// Verdicts form a monoid under `append`: it is associative, and the safe
/// verdict is its unit on both sides.
pub proof fn law_append_monoid(a: Seq<usize>, b: Seq<usize>, c: Seq<usize>)
    ensures
        (a + b) + c == a + (b + c),
        Seq::<usize>::empty() + a == a,
        a + Seq::<usize>::empty() == a,
{
    assert((a + b) + c =~= a + (b + c));
    assert(Seq::<usize>::empty() + a =~= a);
    assert(a + Seq::<usize>::empty() =~= a);
}

} // verus!
