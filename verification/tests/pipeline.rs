use liquid_rust::collector::{AttrArgs, Attribute, FnItem, SpecCollector, SurfaceSig};
use liquid_rust::driver::{check_program, collect_results, gather_def_ids, install_signatures, Checked, ErrorReported};
use liquid_rust::global_env::{FnSig, FunSpec};
use liquid_rust::intern::Interner;
use liquid_rust::ir::{BasicBlockData, Body, Constant as IrConstant, Operand, Place, Rvalue, Statement, Terminator, TerminatorKind};
use liquid_rust::result::{FixpointResult, Span};
use liquid_rust::ty::{BaseTy, BinOp, Constant, ExprNode, IntTy, Sign, Ty};

const I32: BaseTy = BaseTy::Int(IntTy::I32);

fn at(lo: u32) -> Span {
    Span { lo, hi: lo }
}

fn attribute(path: &[&str], args: AttrArgs) -> Attribute {
    Attribute { normal: true, segments: path.iter().map(|s| s.to_string()).collect(), args, span: at(0) }
}

fn signature(tree: usize, name: Option<usize>) -> Attribute {
    attribute(&["lr", "ty"], AttrArgs::Delimited(at(1), Ok(SurfaceSig { name, span: at(2), tree })))
}

fn block(statements: Vec<Statement>, kind: TerminatorKind) -> BasicBlockData {
    BasicBlockData { statements, terminator: Some(Terminator { kind, source_info: at(9) }) }
}

/// A body that calls the function `callee` with the number 0 and returns
/// what it returns.
fn calling(callee: usize) -> Body {
    Body {
        basic_blocks: vec![
            block(
                vec![],
                TerminatorKind::Call {
                    func: callee,
                    substs: vec![],
                    args: vec![Operand::Constant(IrConstant::Int(0, IntTy::I32))],
                    destination: Some((Place { local: 0, derefs: 0 }, 1)),
                },
            ),
            block(vec![], TerminatorKind::Return),
        ],
        nlocals: 2,
        nargs: 1,
        reverse_postorder: vec![0, 1],
        immediate_dominators: vec![0, 0],
    }
}

/// A body that returns its argument.
fn identity() -> Body {
    Body {
        basic_blocks: vec![block(
            vec![Statement::Assign(
                Place { local: 0, derefs: 0 },
                Rvalue::Use(Operand::Move(Place { local: 1, derefs: 0 })),
            )],
            TerminatorKind::Return,
        )],
        nlocals: 2,
        nargs: 1,
        reverse_postorder: vec![0],
        immediate_dominators: vec![0],
    }
}

/// The signature that the frontend makes of a syntax tree: tree 0 is
/// `fn(i32{v: 0 <= v}) -> i32{v: 0 <= v}`, tree 1 is
/// `fn(i32{v: false}) -> i32`.
fn resolve(interner: &mut Interner, tree: usize) -> FnSig {
    let v = interner.try_intern(ExprNode::Bound).unwrap();
    let zero = interner.try_intern(ExprNode::Constant(Constant::Int(Sign::Positive, 0))).unwrap();
    let non_negative = interner.try_intern(ExprNode::BinaryOp(BinOp::Le, zero, v)).unwrap();
    let always = interner.try_intern(ExprNode::Constant(Constant::Bool(true))).unwrap();
    let never = interner.try_intern(ExprNode::Constant(Constant::Bool(false))).unwrap();
    let (arg, ret) = match tree {
        0 => (non_negative, non_negative),
        _ => (never, always),
    };
    FnSig { params: vec![], requires: vec![], args: vec![Ty::Refine(I32, arg)], ret: Ty::Refine(I32, ret), ensures: vec![] }
}

#[test]
fn from_annotations_to_queries() {
    // fn keep(x) { x }          with the signature of tree 0
    // fn die(x)                  with the signature of tree 1, named by an
    //                            attribute of the program: trusted
    // fn boom(x) { die(0) }      with the signature of tree 0
    // fn free(x) { die(0) }      without a signature
    let items = vec![
        FnItem { def_id: 0, ident: 10, attrs: vec![signature(0, None)] },
        FnItem { def_id: 1, ident: 11, attrs: vec![] },
        FnItem { def_id: 2, ident: 12, attrs: vec![attribute(&["inline"], AttrArgs::Empty), signature(0, None)] },
        FnItem { def_id: 3, ident: 13, attrs: vec![] },
    ];
    let attributes = vec![signature(1, Some(11))];
    let (diagnostics, annotations) = SpecCollector::collect(&items, &attributes);
    assert!(diagnostics.is_empty());
    let annotations = annotations.unwrap();

    let mut interner = Interner::new();
    let mut def_ids: Vec<usize> = annotations.keys().copied().collect();
    def_ids.sort();
    assert_eq!(def_ids, vec![0, 1, 2]);
    let sigs = def_ids
        .iter()
        .map(|def_id| {
            let spec = annotations[def_id];
            (*def_id, FunSpec { fn_sig: resolve(&mut interner, spec.fn_sig.tree), trusted: spec.trusted })
        })
        .collect();
    let global_env = install_signatures(&interner, sigs).unwrap();

    let bodies = vec![(0, identity()), (1, identity()), (2, calling(1)), (3, calling(1))];
    assert_eq!(gather_def_ids(&bodies), vec![1, 1]);
    let (interner, checked) = check_program(&global_env, &bodies, interner);
    let queries: Vec<Option<String>> = checked
        .iter()
        .map(|c| match c {
            Checked::Constraint(tree) => Some(tree.to_fixpoint(&interner)),
            Checked::Trusted | Checked::Unannotated => None,
            Checked::Failed(e) => panic!("{:?}", e),
        })
        .collect();
    assert_eq!(
        queries,
        vec![
            Some("(constraint (and (forall ((a0 int) (0 <= a0)) (and ((0 <= a0))))))\n".to_string()),
            None,
            Some(
                "(constraint (and (forall ((a0 int) (0 <= a0)) (and ((false)) \
                 (forall ((a1 int) (true)) (and ((0 <= a1))))))))\n"
                    .to_string()
            ),
            None,
        ]
    );

    // The solver proves the first query and not the third.
    let verdicts: Vec<Result<FixpointResult, ErrorReported>> = vec![
        Ok(FixpointResult::safe()),
        Ok(FixpointResult::safe()),
        Ok(FixpointResult::unsafe_at(2)),
        Ok(FixpointResult::safe()),
    ];
    let verdict = collect_results(verdicts).unwrap();
    assert!(!verdict.is_safe());
    assert_eq!(verdict.failed, vec![2]);
}
