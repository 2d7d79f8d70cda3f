//! What the driver decides: the arguments of the compiler, the functions
//! to check, and the verdict on a program.

use vstd::prelude::*;
use vstd::string::StringExecFns;
use crate::checker::{check_spec, Checker};
use crate::constraint::{ConstraintBuilder, TreeModel};
use rustc_hash::FxHashMap;
use crate::fxmap::{fx_insert, fx_new};
use crate::global_env::{lemma_genv_below_later, FunSpec, GlobalEnv};
use crate::wf::{check_fn_sig, check_fn_sig_spec, lemma_wf_sig_below, WfError};
use crate::intern::{arena_extends, Interner};
use crate::ir::{Body, TerminatorKind};
use crate::result::{FixpointResult, TyError};
use crate::ty::{ExprNode, FnId};

verus! {

/// An error that was reported where it was found.
#[derive(Clone, Copy, Debug, PartialEq, Eq, Structural)]
pub struct ErrorReported;

/// The path of the toolchain's sysroot: the home of the toolchains, then
/// `/toolchains/`, then the name of the toolchain.
pub open spec fn sysroot_spec(home: Seq<char>, toolchain: Seq<char>) -> Seq<char> {
    home + "/toolchains/"@ + toolchain
}

/// The sysroot of the toolchain that the two settings name, or nothing if
/// one of them is not set.
pub fn sysroot(home: Option<&str>, toolchain: Option<&str>) -> (r: Option<String>)
    ensures
        match (home, toolchain) {
            (Some(h), Some(t)) => r is Some && r->0@ == sysroot_spec(h@, t@),
            _ => r is None,
        },
{
    let home = home?;
    let toolchain = toolchain?;
    let mut s = String::from_str(home);
    s.append("/toolchains/");
    s.append(toolchain);
    Some(s)
}

/// The arguments that the compiler is run with: those given, then the
/// sysroot, optimisation, and no unwinding.
pub fn compiler_args(args: Vec<String>, sysroot: String) -> (r: Vec<String>)
    ensures
        r@.len() == args@.len() + 4,
        r@.subrange(0, args@.len() as int) == args@,
        r@[args@.len() as int]@ == "--sysroot"@,
        r@[args@.len() as int + 1] == sysroot,
        r@[args@.len() as int + 2]@ == "-O"@,
        r@[args@.len() as int + 3]@ == "-Cpanic=abort"@,
{
    let mut r = args;
    r.push(String::from_str("--sysroot"));
    r.push(sysroot);
    r.push(String::from_str("-O"));
    r.push(String::from_str("-Cpanic=abort"));
    assert(r@.subrange(0, args@.len() as int) =~= args@);
    r
}

/// The functions that the first `n` blocks of a body call, in the order of
/// the blocks.
pub open spec fn callees_spec(body: &Body, n: int) -> Seq<FnId>
    decreases n,
{
    if n <= 0 || n > body.basic_blocks@.len() {
        Seq::empty()
    } else {
        match body.basic_blocks@[n - 1].terminator {
            Some(t) => match t.kind {
                TerminatorKind::Call { func, substs, args, destination } => callees_spec(body, n - 1).push(
                    func,
                ),
                _ => callees_spec(body, n - 1),
            },
            None => callees_spec(body, n - 1),
        }
    }
}

/// Adds the functions that a body calls to `res`.
pub fn gather_body_def_ids(body: &Body, res: &mut Vec<FnId>)
    ensures
        final(res)@ == old(res)@ + callees_spec(body, body.basic_blocks@.len() as int),
{
    let mut i: usize = 0;
    assert(old(res)@ + Seq::<FnId>::empty() =~= old(res)@);
    while i < body.basic_blocks.len()
        invariant
            i <= body.basic_blocks.len(),
            res@ == old(res)@ + callees_spec(body, i as int),
        decreases body.basic_blocks.len() - i,
    {
        if let Some(term) = &body.basic_blocks[i].terminator {
            match &term.kind {
                TerminatorKind::Call { func, substs, args, destination } => {
                    res.push(*func);
                    assert(res@ =~= old(res)@ + callees_spec(body, i as int).push(*func));
                },
                _ => {},
            }
        }
        i = i + 1;
    }
}

/// The functions that the first `n` bodies call.
pub open spec fn all_callees_spec(bodies: Seq<(FnId, Body)>, n: int) -> Seq<FnId>
    decreases n,
{
    if n <= 0 || n > bodies.len() {
        Seq::empty()
    } else {
        all_callees_spec(bodies, n - 1) + callees_spec(
            &bodies[n - 1].1,
            bodies[n - 1].1.basic_blocks@.len() as int,
        )
    }
}

/// The functions that the bodies call.
pub fn gather_def_ids(bodies: &Vec<(FnId, Body)>) -> (r: Vec<FnId>)
    ensures
        r@ == all_callees_spec(bodies@, bodies@.len() as int),
{
    let mut def_ids: Vec<FnId> = Vec::new();
    let mut i: usize = 0;
    while i < bodies.len()
        invariant
            i <= bodies.len(),
            def_ids@ == all_callees_spec(bodies@, i as int),
        decreases bodies.len() - i,
    {
        gather_body_def_ids(&bodies[i].1, &mut def_ids);
        i = i + 1;
    }
    def_ids
}

/// The table of the first `n` signatures, by function. Of two signatures
/// of one function the later counts.
pub open spec fn installed_spec(sigs: Seq<(FnId, FunSpec)>, n: int) -> Map<FnId, FunSpec>
    decreases n,
{
    if n <= 0 || n > sigs.len() {
        Map::empty()
    } else {
        installed_spec(sigs, n - 1).insert(sigs[n - 1].0, sigs[n - 1].1)
    }
}

/// What is wrong with the first `n` signatures: for each that is not well
/// formed, its function and its fault, in order.
pub open spec fn rejected_spec(nodes: Seq<ExprNode>, sigs: Seq<(FnId, FunSpec)>, n: int) -> Seq<
    (FnId, WfError),
>
    decreases n,
{
    if n <= 0 || n > sigs.len() {
        Seq::empty()
    } else {
        match check_fn_sig_spec(nodes, &sigs[n - 1].1.fn_sig) {
            Ok(_) => rejected_spec(nodes, sigs, n - 1),
            Err(e) => rejected_spec(nodes, sigs, n - 1).push((sigs[n - 1].0, e)),
        }
    }
}

/// Checks every signature of a program and installs them in a table, if
/// all are well formed. If not, all the faults are reported, and no body
/// gets checked.
pub fn install_signatures(interner: &Interner, sigs: Vec<(FnId, FunSpec)>) -> (r: Result<
    GlobalEnv,
    Vec<(FnId, WfError)>,
>)
    requires
        interner.wf(),
    ensures
        match r {
            Ok(genv) => rejected_spec(interner@, sigs@, sigs@.len() as int).len() == 0 && genv.specs@
                == installed_spec(sigs@, sigs@.len() as int) && genv.exprs_below(interner@.len()),
            Err(errors) => errors@.len() > 0 && errors@ == rejected_spec(
                interner@,
                sigs@,
                sigs@.len() as int,
            ),
        },
{
    let mut sigs = sigs;
    let ghost all = sigs@;
    let total = sigs.len();
    let mut rest: Vec<(FnId, FunSpec)> = Vec::new();
    while sigs.len() > 0
        invariant
            sigs@.len() + rest@.len() == all.len(),
            sigs@ == all.subrange(0, sigs@.len() as int),
            forall|k: int| 0 <= k < rest@.len() ==> rest@[k] == all[all.len() - 1 - k],
        decreases sigs@.len(),
    {
        let ghost n = sigs@.len();
        let last = sigs.pop().unwrap();
        rest.push(last);
        assert(sigs@ =~= all.subrange(0, n - 1));
    }
    let ghost reversed = rest@;
    let mut specs: FxHashMap<FnId, FunSpec> = fx_new();
    let mut errors: Vec<(FnId, WfError)> = Vec::new();
    let mut i: usize = 0;
    assert(specs@ =~= installed_spec(all, 0));
    while rest.len() > 0
        invariant
            interner.wf(),
            total == all.len(),
            i + rest@.len() == all.len(),
            rest@ == reversed.subrange(0, rest@.len() as int),
            reversed.len() == all.len(),
            forall|k: int| 0 <= k < reversed.len() ==> reversed[k] == all[all.len() - 1 - k],
            specs@ == installed_spec(all, i as int),
            errors@ == rejected_spec(interner@, all, i as int),
            errors@.len() == 0 ==> forall|f: FnId|
                specs@.contains_key(f) ==> (#[trigger] specs@[f]).fn_sig.exprs_below(interner@.len()),
        decreases rest@.len(),
    {
        let ghost n = rest@.len();
        let ghost before = specs@;
        let (func, spec) = rest.pop().unwrap();
        assert(rest@ =~= reversed.subrange(0, n - 1));
        assert((func, spec) == all[i as int]);
        match check_fn_sig(interner, &spec.fn_sig) {
            Ok(_) => {
                proof {
                    lemma_wf_sig_below(interner@, &spec.fn_sig);
                }
            },
            Err(e) => {
                errors.push((func, e));
            },
        }
        let _ = fx_insert(&mut specs, func, spec);
        proof {
            if errors@.len() == 0 {
                assert forall|f: FnId| specs@.contains_key(f) implies (#[trigger] specs@[f]).fn_sig.exprs_below(
                interner@.len()) by {
                    if f != func {
                        assert(before.contains_key(f));
                    }
                }
            }
        }
        i = i + 1;
    }
    if errors.len() > 0 {
        Err(errors)
    } else {
        Ok(GlobalEnv::new(specs))
    }
}

/// What came of one function of a program.
pub enum Checked {
    /// The program declares no signature for the function.
    Unannotated,
    /// The signature is trusted; the body was not looked at.
    Trusted,
    /// The body is correct if the constraints hold.
    Constraint(ConstraintBuilder),
    /// Checking stopped.
    Failed(TyError),
}

/// What came of one function, as contracts see it.
pub enum CheckedModel {
    Unannotated,
    Trusted,
    Constraint(TreeModel),
    Failed(TyError),
}

impl View for Checked {
    type V = CheckedModel;

    open spec fn view(&self) -> CheckedModel {
        match self {
            Checked::Unannotated => CheckedModel::Unannotated,
            Checked::Trusted => CheckedModel::Trusted,
            Checked::Constraint(c) => CheckedModel::Constraint(c@),
            Checked::Failed(e) => CheckedModel::Failed(*e),
        }
    }
}

/// What comes of one function: nothing is done for a function without a
/// signature or with a trusted one; any other is checked.
pub open spec fn check_fn_spec(genv: &GlobalEnv, func: FnId, body: &Body, nodes: Seq<ExprNode>) -> (
    Seq<ExprNode>,
    CheckedModel,
) {
    if !genv.specs@.contains_key(func) {
        (nodes, CheckedModel::Unannotated)
    } else if genv.specs@[func].trusted {
        (nodes, CheckedModel::Trusted)
    } else {
        let (n1, r) = check_spec(genv, body, &genv.specs@[func].fn_sig, func, nodes);
        (
            n1,
            match r {
                Ok(tree) => CheckedModel::Constraint(tree),
                Err(e) => CheckedModel::Failed(e),
            },
        )
    }
}

/// What comes of the functions from `i` on, each checked in the arena
/// that the one before left. A failure in one function does not stop the
/// next from being checked.
pub open spec fn check_program_spec(genv: &GlobalEnv, bodies: Seq<(FnId, Body)>, nodes: Seq<ExprNode>, i: int) -> (
    Seq<ExprNode>,
    Seq<CheckedModel>,
)
    decreases bodies.len() - i,
{
    if i < 0 || i >= bodies.len() {
        (nodes, Seq::empty())
    } else {
        let (n1, c) = check_fn_spec(genv, bodies[i].0, &bodies[i].1, nodes);
        let (n2, rest) = check_program_spec(genv, bodies, n1, i + 1);
        (n2, seq![c] + rest)
    }
}

/// The outcomes of a vector, as contracts see them.
pub open spec fn checked_model(s: Seq<Checked>) -> Seq<CheckedModel> {
    Seq::new(s.len(), |i: int| s[i]@)
}

/// Every constraint tree among the outcomes is well formed and has its
/// expressions in an arena of `n` expressions: its query can be asked
/// for.
pub open spec fn queries_ready(s: Seq<Checked>, n: nat) -> bool {
    forall|i: int|
        0 <= i < s.len() ==> match #[trigger] s[i] {
            Checked::Constraint(c) => c.wf() && c@.exprs_below(n),
            _ => true,
        }
}

/// Checks every function of a program that has a signature which is not
/// trusted, in the order given.
pub fn check_program(global_env: &GlobalEnv, bodies: &Vec<(FnId, Body)>, interner: Interner) -> (r: (
    Interner,
    Vec<Checked>,
))
    requires
        interner.wf(),
        global_env.exprs_below(interner@.len()),
    ensures
        (r.0@, checked_model(r.1@)) == check_program_spec(global_env, bodies@, interner@, 0),
        r.0.wf(),
        arena_extends(r.0@, interner@),
        queries_ready(r.1@, r.0@.len()),
{
    let ghost start = interner@;
    let mut interner = interner;
    let mut out: Vec<Checked> = Vec::new();
    let mut i: usize = 0;
    assert(checked_model(out@) =~= Seq::empty());
    assert(Seq::<CheckedModel>::empty() + check_program_spec(global_env, bodies@, interner@, 0).1
        =~= check_program_spec(global_env, bodies@, interner@, 0).1);
    while i < bodies.len()
        invariant
            i <= bodies.len(),
            interner.wf(),
            global_env.exprs_below(interner@.len()),
            arena_extends(interner@, start),
            check_program_spec(global_env, bodies@, interner@, i as int).0 == check_program_spec(
                global_env,
                bodies@,
                start,
                0,
            ).0,
            checked_model(out@) + check_program_spec(global_env, bodies@, interner@, i as int).1
                == check_program_spec(global_env, bodies@, start, 0).1,
            queries_ready(out@, interner@.len()),
        decreases bodies.len() - i,
    {
        let ghost before = interner@;
        let ghost out_before = checked_model(out@);
        let func = bodies[i].0;
        let body = &bodies[i].1;
        let checked = match crate::fxmap::fx_get(&global_env.specs, func) {
            None => Checked::Unannotated,
            Some(spec) => {
                if spec.trusted {
                    Checked::Trusted
                } else {
                    assert(global_env.specs@[func].fn_sig.exprs_below(interner@.len()));
                    let (next, r) = Checker::check(global_env, body, &spec.fn_sig, func, interner);
                    interner = next;
                    match r {
                        Ok(constraint) => Checked::Constraint(constraint),
                        Err(e) => Checked::Failed(e),
                    }
                }
            },
        };
        proof {
            lemma_genv_below_later(global_env, before.len(), interner@.len());
        }
        let ghost c = checked@;
        let ghost out_exec = out@;
        assert(match checked {
            Checked::Constraint(tree) => tree.wf() && tree@.exprs_below(interner@.len()),
            _ => true,
        });
        out.push(checked);
        proof {
            assert forall|k: int| 0 <= k < out@.len() implies match #[trigger] out@[k] {
                Checked::Constraint(tree) => tree.wf() && tree@.exprs_below(interner@.len()),
                _ => true,
            } by {
                if k < out_exec.len() {
                    assert(out@[k] == out_exec[k]);
                    match out_exec[k] {
                        Checked::Constraint(tree) => {
                            crate::rules::lemma_tree_below_later(tree@, before.len(), interner@.len());
                        },
                        _ => {},
                    }
                }
            }
        }
        proof {
            let rest = check_program_spec(global_env, bodies@, interner@, i + 1).1;
            assert(checked_model(out@) =~= out_before.push(c));
            assert(out_before + (seq![c] + rest) =~= checked_model(out@) + rest);
        }
        i = i + 1;
    }
    assert(checked_model(out@) + Seq::<CheckedModel>::empty() =~= checked_model(out@));
    (interner, out)
}

/// The verdicts of the first `n` results, one after another.
pub open spec fn appended_spec(results: Seq<Result<FixpointResult, ErrorReported>>, n: int) -> Seq<usize>
    decreases n,
{
    if n <= 0 || n > results.len() {
        Seq::empty()
    } else {
        appended_spec(results, n - 1) + match results[n - 1] {
            Ok(r) => r@,
            Err(_) => Seq::empty(),
        }
    }
}

/// The verdict on a program from the verdicts on its functions: all of
/// them appended, unless checking one of the functions reported an error.
pub fn collect_results(results: Vec<Result<FixpointResult, ErrorReported>>) -> (r: Result<
    FixpointResult,
    ErrorReported,
>)
    ensures
        match r {
            Ok(v) => v@ == appended_spec(results@, results@.len() as int) && forall|i: int|
                0 <= i < results@.len() ==> (#[trigger] results@[i]) is Ok,
            Err(_) => exists|i: int| 0 <= i < results@.len() && (#[trigger] results@[i]) is Err,
        },
{
    let mut results = results;
    let ghost all = results@;
    let total = results.len();
    let mut acc = FixpointResult::safe();
    let mut failed = false;
    let mut rest: Vec<Result<FixpointResult, ErrorReported>> = Vec::new();
    // Take the results off the end, so that each can be moved out.
    while results.len() > 0
        invariant
            results@.len() + rest@.len() == all.len(),
            results@ == all.subrange(0, results@.len() as int),
            forall|k: int| 0 <= k < rest@.len() ==> rest@[k] == all[all.len() - 1 - k],
        decreases results@.len(),
    {
        let ghost n = results@.len();
        let last = results.pop().unwrap();
        rest.push(last);
        assert(results@ =~= all.subrange(0, n - 1));
    }
    let ghost reversed = rest@;
    let mut i: usize = 0;
    while rest.len() > 0
        invariant
            total == all.len(),
            i + rest@.len() == all.len(),
            rest@ == reversed.subrange(0, rest@.len() as int),
            reversed.len() == all.len(),
            forall|k: int| 0 <= k < reversed.len() ==> reversed[k] == all[all.len() - 1 - k],
            acc@ == appended_spec(all, i as int),
            failed <==> exists|k: int| 0 <= k < i && (#[trigger] all[k]) is Err,
        decreases rest@.len(),
    {
        let ghost n = rest@.len();
        let next = rest.pop().unwrap();
        assert(rest@ =~= reversed.subrange(0, n - 1));
        assert(next == all[i as int]);
        match next {
            Ok(v) => {
                acc = acc.append(v);
            },
            Err(_) => {
                failed = true;
                assert(appended_spec(all, i + 1) =~= appended_spec(all, i as int));
            },
        }
        i = i + 1;
    }
    if failed {
        Err(ErrorReported)
    } else {
        Ok(acc)
    }
}

} // verus!
