use liquid_rust::collector::{
    is_word, AttrArgs, Attribute, Diagnostic, FnItem, LrSpec, Message, ParseError, ParseErrorKind, SpecCollector,
    SurfaceSig, SurfaceSpec,
};
use liquid_rust::result::Span;

fn at(lo: u32) -> Span {
    Span { lo, hi: lo + 1 }
}

fn sig(tree: usize) -> SurfaceSig {
    SurfaceSig { name: None, span: at(100 + tree as u32), tree }
}

fn named(name: usize, tree: usize) -> SurfaceSig {
    SurfaceSig { name: Some(name), span: at(100 + tree as u32), tree }
}

fn attribute(path: &[&str], args: AttrArgs, lo: u32) -> Attribute {
    Attribute { normal: true, segments: path.iter().map(|s| s.to_string()).collect(), args, span: at(lo) }
}

fn ty(sig: SurfaceSig, lo: u32) -> Attribute {
    attribute(&["lr", "ty"], AttrArgs::Delimited(at(lo + 50), Ok(sig)), lo)
}

fn trusted(lo: u32) -> Attribute {
    attribute(&["lr", "assume"], AttrArgs::Empty, lo)
}

fn invalid(lo: u32) -> Diagnostic {
    Diagnostic { span: at(lo), message: Message::InvalidAnnotation }
}

#[test]
fn words_are_compared_whole() {
    assert!(is_word(&"lr".to_string(), "lr"));
    assert!(!is_word(&"lr ".to_string(), "lr"));
    assert!(!is_word(&"l".to_string(), "lr"));
    assert!(!is_word(&"".to_string(), "lr"));
    assert!(is_word(&"".to_string(), ""));
}

#[test]
fn messages() {
    assert_eq!(Message::InvalidAnnotation.text(), "invalid liquid annotation.");
    assert_eq!(Message::DuplicatedSignature.text(), "duplicated function signature.");
    assert_eq!(Message::Parse(ParseErrorKind::UnexpectedEOF).text(), "type annotation ended unexpectedly");
    assert_eq!(Message::Parse(ParseErrorKind::UnexpectedToken).text(), "unexpected token");
    assert_eq!(Message::Parse(ParseErrorKind::IntTooLarge).text(), "integer literal is too large");
}

fn parse(attr: &Attribute) -> (Option<LrSpec>, Vec<Diagnostic>) {
    // One function with the attribute alone shows what the attribute says.
    let mut collector = SpecCollector::new();
    let spec = collector.parse_attribute(attr);
    let item = FnItem { def_id: 0, ident: 0, attrs: vec![] };
    collector.visit_item(&item);
    let (errors, _) = SpecCollector::collect(
        &vec![FnItem { def_id: 0, ident: 0, attrs: vec![clone(attr)] }],
        &vec![],
    );
    (spec, errors)
}

fn clone(attr: &Attribute) -> Attribute {
    Attribute { normal: attr.normal, segments: attr.segments.clone(), args: attr.args, span: attr.span }
}

#[test]
fn what_an_attribute_says() {
    assert_eq!(parse(&ty(sig(1), 0)), (Some(LrSpec::Assert(sig(1))), vec![]));
    assert_eq!(parse(&trusted(0)), (Some(LrSpec::Assume), vec![]));
    // Attributes of others say nothing and are no error.
    for path in [&["inline"][..], &["liquid", "ty"], &["ty"], &[], &["LR", "ty"], &["lr2", "ty"]] {
        assert_eq!(parse(&attribute(path, AttrArgs::Delimited(at(1), Ok(sig(1))), 7)), (None, vec![]));
    }
    let comment = Attribute { normal: false, ..ty(sig(1), 0) };
    assert_eq!(parse(&comment), (None, vec![]));
    // Anything else under `lr` is an error.
    for path in [&["lr"][..], &["lr", "type"], &["lr", "ty", "x"], &["lr", "assume", "x"], &["lr", ""]] {
        assert_eq!(parse(&attribute(path, AttrArgs::Delimited(at(1), Ok(sig(1))), 7)), (None, vec![invalid(7)]));
    }
    for args in [AttrArgs::Empty, AttrArgs::Eq] {
        assert_eq!(parse(&attribute(&["lr", "ty"], args, 7)), (None, vec![invalid(7)]));
    }
    // The mark of trust takes no notice of its arguments.
    assert_eq!(
        parse(&attribute(&["lr", "assume"], AttrArgs::Delimited(at(1), Ok(sig(1))), 7)),
        (Some(LrSpec::Assume), vec![])
    );
    for kind in [ParseErrorKind::UnexpectedEOF, ParseErrorKind::UnexpectedToken, ParseErrorKind::IntTooLarge] {
        let failed = AttrArgs::Delimited(at(1), Err(ParseError { kind, span: at(33) }));
        assert_eq!(
            parse(&attribute(&["lr", "ty"], failed, 7)),
            (None, vec![Diagnostic { span: at(33), message: Message::Parse(kind) }])
        );
    }
}

#[test]
fn annotations_of_functions() {
    let items = vec![
        FnItem { def_id: 10, ident: 0, attrs: vec![ty(sig(1), 0)] },
        FnItem { def_id: 11, ident: 1, attrs: vec![trusted(1), attribute(&["inline"], AttrArgs::Empty, 2), ty(sig(2), 3)] },
        FnItem { def_id: 12, ident: 2, attrs: vec![ty(sig(3), 4), trusted(5)] },
        // A mark of trust without a signature gives no signature.
        FnItem { def_id: 13, ident: 3, attrs: vec![trusted(6)] },
        FnItem { def_id: 14, ident: 4, attrs: vec![] },
    ];
    let (errors, specs) = SpecCollector::collect(&items, &vec![]);
    assert_eq!(errors, vec![]);
    let specs = specs.unwrap();
    assert_eq!(specs.len(), 3);
    assert_eq!(specs[&10], SurfaceSpec { fn_sig: sig(1), trusted: false });
    assert_eq!(specs[&11], SurfaceSpec { fn_sig: sig(2), trusted: true });
    assert_eq!(specs[&12], SurfaceSpec { fn_sig: sig(3), trusted: true });
}

#[test]
fn second_signature_is_an_error() {
    let items = vec![
        FnItem { def_id: 10, ident: 0, attrs: vec![ty(sig(1), 0), trusted(1), ty(sig(2), 2), ty(sig(3), 3)] },
        FnItem { def_id: 11, ident: 1, attrs: vec![ty(sig(4), 4)] },
    ];
    let (errors, specs) = SpecCollector::collect(&items, &vec![]);
    // The error stands at the second signature; the third is not looked
    // at, and the function gets no signature.
    assert_eq!(errors, vec![Diagnostic { span: sig(2).span, message: Message::DuplicatedSignature }]);
    assert!(specs.is_err());
    let mut collector = SpecCollector::new();
    collector.parse_annotations(10, &items[0].attrs);
    collector.parse_annotations(11, &items[1].attrs);
    let (errors, _) = SpecCollector::collect(&items, &vec![]);
    assert_eq!(errors.len(), 1);
}

#[test]
fn signature_that_names_a_function_is_trusted() {
    let items = vec![
        FnItem { def_id: 10, ident: 0, attrs: vec![] },
        FnItem { def_id: 11, ident: 1, attrs: vec![ty(sig(1), 0)] },
    ];
    let attributes = vec![
        ty(named(0, 2), 1),
        // A signature for a function that the program lacks is passed
        // over, and so is one without a name.
        ty(named(5, 3), 2),
        ty(sig(6), 3),
        trusted(4),
        // A named signature replaces the one on the function.
        ty(named(1, 4), 5),
    ];
    let (errors, specs) = SpecCollector::collect(&items, &attributes);
    assert_eq!(errors, vec![]);
    let specs = specs.unwrap();
    assert_eq!(specs.len(), 2);
    assert_eq!(specs[&10], SurfaceSpec { fn_sig: named(0, 2), trusted: true });
    assert_eq!(specs[&11], SurfaceSpec { fn_sig: named(1, 4), trusted: true });
}

#[test]
fn errors_are_collected_and_no_signature_is_handed_on() {
    let bad = attribute(&["lr", "nonsense"], AttrArgs::Empty, 9);
    let failed = attribute(
        &["lr", "ty"],
        AttrArgs::Delimited(at(1), Err(ParseError { kind: ParseErrorKind::UnexpectedToken, span: at(70) })),
        10,
    );
    let items = vec![FnItem { def_id: 10, ident: 0, attrs: vec![clone(&bad), ty(sig(1), 0), clone(&failed)] }];
    // The attributes of the program are those of its functions too: each
    // is read again.
    let attributes = vec![clone(&bad), ty(sig(1), 0), clone(&failed)];
    let (errors, specs) = SpecCollector::collect(&items, &attributes);
    let parse_error = Diagnostic { span: at(70), message: Message::Parse(ParseErrorKind::UnexpectedToken) };
    assert_eq!(errors, vec![invalid(9), parse_error, invalid(9), parse_error]);
    assert!(specs.is_err());
    let (errors, specs) = SpecCollector::collect(&vec![], &vec![]);
    assert_eq!(errors, vec![]);
    assert!(specs.unwrap().is_empty());
}
