use liquid_rust::intern::Interner;
use liquid_rust::ir::Body;
use liquid_rust::ty::Ty;
use liquid_rust::visitor::{Annotation, AnnotationError, Context, Function, Item, LiquidAttr, MyVisitor, TyArgs};

fn body(nlocals: usize) -> Body {
    Body { basic_blocks: vec![], nlocals, nargs: 0, reverse_postorder: vec![], immediate_dominators: vec![] }
}

fn attr(path: &[&str], args: TyArgs) -> LiquidAttr {
    LiquidAttr { normal: true, segments: path.iter().map(|s| s.to_string()).collect(), args }
}

fn visitor() -> MyVisitor {
    MyVisitor::from_tcx(Context { interner: Interner::new() })
}

#[test]
fn functions_are_kept_in_order() {
    let mut v = visitor();
    v.push_fn(Function::new(body(1), vec![]));
    v.push_fn(Function::new(body(2), vec![Annotation::Ty(Ty::Uninit)]));
    v.push_fn(Function::new(body(3), vec![]));
    let (fns, ctx) = v.into_parts();
    assert_eq!(fns.iter().map(|f| f.body.nlocals).collect::<Vec<_>>(), vec![1, 2, 3]);
    assert_eq!(fns[1].anns, vec![Annotation::Ty(Ty::Uninit)]);
    assert_eq!(ctx.interner.len(), 0);
    assert!(visitor().into_parts().0.is_empty());
}

#[test]
fn annotations_of_a_function() {
    let v = visitor();
    let attrs = vec![
        attr(&["inline"], TyArgs::Empty),
        attr(&["liquid", "ty"], TyArgs::Delimited(Some(Ty::MutRef(1)))),
        attr(&["lr", "ty"], TyArgs::Delimited(None)),
        LiquidAttr { normal: false, ..attr(&["liquid", "nonsense"], TyArgs::Empty) },
        attr(&[], TyArgs::Eq),
        attr(&["liquid", "ty", "more"], TyArgs::Delimited(Some(Ty::Func(2)))),
    ];
    assert_eq!(MyVisitor::first_malformed(&attrs), None);
    assert_eq!(v.get_anns(&attrs), vec![Annotation::Ty(Ty::MutRef(1)), Annotation::Ty(Ty::Func(2))]);
    assert_eq!(MyVisitor::first_malformed(&vec![]), None);
    assert_eq!(v.get_anns(&vec![]), vec![]);
}

#[test]
fn annotations_that_cannot_be_read() {
    let good = || attr(&["liquid", "ty"], TyArgs::Delimited(Some(Ty::Uninit)));
    assert_eq!(
        MyVisitor::first_malformed(&vec![good(), attr(&["liquid", "ty"], TyArgs::Delimited(None))]),
        Some(AnnotationError::NotAType(1))
    );
    assert_eq!(
        MyVisitor::first_malformed(&vec![attr(&["liquid", "ty"], TyArgs::Empty)]),
        Some(AnnotationError::NoTokens(0))
    );
    assert_eq!(
        MyVisitor::first_malformed(&vec![good(), good(), attr(&["liquid", "ty"], TyArgs::Eq)]),
        Some(AnnotationError::NoTokens(2))
    );
    assert_eq!(MyVisitor::first_malformed(&vec![attr(&["liquid"], TyArgs::Empty)]), Some(AnnotationError::Unknown(0)));
    assert_eq!(
        MyVisitor::first_malformed(&vec![attr(&["liquid", "type"], TyArgs::Delimited(Some(Ty::Uninit))), good()]),
        Some(AnnotationError::Unknown(0))
    );
}

#[test]
fn only_functions_are_visited() {
    let mut v = visitor();
    let good = || attr(&["liquid", "ty"], TyArgs::Delimited(Some(Ty::Uninit)));
    v.visit_item(Item { is_fn: true, body: body(1), attrs: vec![good()] });
    // An item that is no function is passed over, whatever its attributes.
    v.visit_item(Item { is_fn: false, body: body(2), attrs: vec![attr(&["liquid"], TyArgs::Empty)] });
    let unread = Item { is_fn: true, body: body(3), attrs: vec![attr(&["liquid"], TyArgs::Empty)] };
    assert_eq!(MyVisitor::first_malformed(&unread.attrs), Some(AnnotationError::Unknown(0)));
    v.visit_item(Item { is_fn: true, body: body(4), attrs: vec![] });
    let (fns, _) = v.into_parts();
    assert_eq!(fns.iter().map(|f| f.body.nlocals).collect::<Vec<_>>(), vec![1, 4]);
    assert_eq!(fns[0].anns, vec![Annotation::Ty(Ty::Uninit)]);
    assert_eq!(fns[1].anns, vec![]);
}
