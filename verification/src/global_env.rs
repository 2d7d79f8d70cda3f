//! The signatures of the functions of a program.

use vstd::prelude::*;
use rustc_hash::FxHashMap;
use crate::fxmap::{fx_contains_key, fx_get};
use crate::ty::{ExprId, FnId, Name, Sort, Ty};

verus! {

/// A logical parameter of a signature: a name, its sort, and what the
/// caller must prove of it.
#[derive(Clone, Copy, Debug, PartialEq, Eq, Structural)]
pub struct Param {
    pub name: Name,
    pub sort: Sort,
    pub pred: ExprId,
}

/// A function signature. Regions are named; `requires` says what each
/// region holds when the function is entered, `ensures` what it holds when
/// the function returns. A region that `ensures` names and `requires`
/// does not is new.
#[derive(Debug)]
pub struct FnSig {
    pub params: Vec<Param>,
    pub requires: Vec<(Name, Ty)>,
    pub args: Vec<Ty>,
    pub ret: Ty,
    pub ensures: Vec<(Name, Ty)>,
}

#[derive(Debug)]
pub struct FunSpec {
    pub fn_sig: FnSig,
    /// The signature is trusted: the body is not checked against it.
    pub trusted: bool,
}

pub struct GlobalEnv {
    pub specs: FxHashMap<FnId, FunSpec>,
}

impl FnSig {
    /// Every expression of the signature is a handle below `n`.
    pub open spec fn exprs_below(&self, n: nat) -> bool {
        &&& forall|i: int| 0 <= i < self.params@.len() ==> (#[trigger] self.params@[i]).pred < n
        &&& forall|i: int| 0 <= i < self.requires@.len() ==> (#[trigger] self.requires@[i]).1.expr_below(n)
        &&& forall|i: int| 0 <= i < self.args@.len() ==> (#[trigger] self.args@[i]).expr_below(n)
        &&& self.ret.expr_below(n)
        &&& forall|i: int| 0 <= i < self.ensures@.len() ==> (#[trigger] self.ensures@[i]).1.expr_below(n)
    }
}

/// A signature whose expressions are in an arena has them in every later
/// arena.
pub proof fn lemma_sig_below_later(sig: &FnSig, n: nat, m: nat)
    requires
        sig.exprs_below(n),
        n <= m,
    ensures
        sig.exprs_below(m),
{
    assert forall|i: int| 0 <= i < sig.requires@.len() implies (#[trigger] sig.requires@[i]).1.expr_below(
        m,
    ) by {
        assert(sig.requires@[i].1.expr_below(n));
    }
    assert forall|i: int| 0 <= i < sig.args@.len() implies (#[trigger] sig.args@[i]).expr_below(m) by {
        assert(sig.args@[i].expr_below(n));
    }
    assert forall|i: int| 0 <= i < sig.ensures@.len() implies (#[trigger] sig.ensures@[i]).1.expr_below(
        m,
    ) by {
        assert(sig.ensures@[i].1.expr_below(n));
    }
}

/// A table of signatures whose expressions are in an arena has them in
/// every later arena.
pub proof fn lemma_genv_below_later(genv: &GlobalEnv, n: nat, m: nat)
    requires
        genv.exprs_below(n),
        n <= m,
    ensures
        genv.exprs_below(m),
{
    assert forall|f: FnId| genv.specs@.contains_key(f) implies (#[trigger] genv.specs@[f]).fn_sig.exprs_below(
        m,
    ) by {
        lemma_sig_below_later(&genv.specs@[f].fn_sig, n, m);
    }
}

impl GlobalEnv {
    /// Every expression of every signature is a handle below `n`.
    pub open spec fn exprs_below(&self, n: nat) -> bool {
        forall|f: FnId| self.specs@.contains_key(f) ==> (#[trigger] self.specs@[f]).fn_sig.exprs_below(n)
    }

    pub fn new(specs: FxHashMap<FnId, FunSpec>) -> (g: GlobalEnv)
        ensures
            g.specs == specs,
    {
        GlobalEnv { specs }
    }

    /// Whether the program declares a signature for a function: the test
    /// to make before `lookup_fn_sig`.
    pub fn has_fn_sig(&self, did: FnId) -> (r: bool)
        ensures
            r == self.specs@.contains_key(did),
    {
        fx_contains_key(&self.specs, did)
    }

    /// The signature of a function for which the program declares one.
    pub fn lookup_fn_sig(&self, did: FnId) -> (r: &FnSig)
        requires
            self.specs@.contains_key(did),
        ensures
            *r == self.specs@[did].fn_sig,
    {
        match fx_get(&self.specs, did) {
            Some(spec) => &spec.fn_sig,
            None => unreached(),
        }
    }
}

} // verus!
