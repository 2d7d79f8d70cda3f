//! What the annotations of a program say: which functions have a
//! signature, and which signatures are trusted.
//!
//! The attributes are handed over as plain values, each with what the
//! parser made of its text.

use vstd::prelude::*;
use vstd::string::StringExecFns;
use rustc_hash::FxHashMap;
use crate::driver::ErrorReported;
use crate::fxmap::{fx_get, fx_insert, fx_new};
use crate::result::Span;

verus! {

/// A name of the program, as the frontend numbers names.
pub type Ident = usize;

/// A function of the crate under check.
pub type LocalDefId = usize;

#[derive(Clone, Copy, Debug, PartialEq, Eq, Structural)]
pub enum ParseErrorKind {
    UnexpectedEOF,
    UnexpectedToken,
    IntTooLarge,
}

#[derive(Clone, Copy, Debug, PartialEq, Eq, Structural)]
pub struct ParseError {
    pub kind: ParseErrorKind,
    pub span: Span,
}

/// A signature as it was written: the function that it names, if it names
/// one, where it stands, and the number under which the frontend keeps its
/// syntax tree.
#[derive(Clone, Copy, Debug, PartialEq, Eq, Structural)]
pub struct SurfaceSig {
    pub name: Option<Ident>,
    pub span: Span,
    pub tree: usize,
}

/// What one annotation says.
#[derive(Clone, Copy, Debug, PartialEq, Eq, Structural)]
pub enum LrSpec {
    /// The signature of the function is trusted.
    Assume,
    /// The function has this signature.
    Assert(SurfaceSig),
}

/// A signature and whether it is trusted.
#[derive(Clone, Copy, Debug, PartialEq, Eq, Structural)]
pub struct SurfaceSpec {
    pub fn_sig: SurfaceSig,
    pub trusted: bool,
}

/// The arguments of an attribute.
#[derive(Clone, Copy, Debug)]
pub enum AttrArgs {
    Empty,
    /// Tokens between delimiters: where they stand, and what parsing them
    /// as a signature gave.
    Delimited(Span, Result<SurfaceSig, ParseError>),
    /// A value after an equals sign.
    Eq,
}

#[derive(Debug)]
pub struct Attribute {
    /// Whether this is an attribute proper, and not a documentation
    /// comment.
    pub normal: bool,
    /// The segments of the path of the attribute.
    pub segments: Vec<String>,
    pub args: AttrArgs,
    pub span: Span,
}

/// A function of the program with its attributes.
#[derive(Debug)]
pub struct FnItem {
    pub def_id: LocalDefId,
    pub ident: Ident,
    pub attrs: Vec<Attribute>,
}

#[derive(Clone, Copy, Debug, PartialEq, Eq, Structural)]
pub enum Message {
    InvalidAnnotation,
    DuplicatedSignature,
    Parse(ParseErrorKind),
}

/// An error to report at a place in the source.
#[derive(Clone, Copy, Debug, PartialEq, Eq, Structural)]
pub struct Diagnostic {
    pub span: Span,
    pub message: Message,
}

impl Message {
    pub open spec fn text_spec(self) -> Seq<char> {
        match self {
            Message::InvalidAnnotation => "invalid liquid annotation."@,
            Message::DuplicatedSignature => "duplicated function signature."@,
            Message::Parse(ParseErrorKind::UnexpectedEOF) => "type annotation ended unexpectedly"@,
            Message::Parse(ParseErrorKind::UnexpectedToken) => "unexpected token"@,
            Message::Parse(ParseErrorKind::IntTooLarge) => "integer literal is too large"@,
        }
    }

    /// The words of the message.
    pub fn text(self) -> (s: &'static str)
        ensures
            s@ == self.text_spec(),
    {
        match self {
            Message::InvalidAnnotation => "invalid liquid annotation.",
            Message::DuplicatedSignature => "duplicated function signature.",
            Message::Parse(ParseErrorKind::UnexpectedEOF) => "type annotation ended unexpectedly",
            Message::Parse(ParseErrorKind::UnexpectedToken) => "unexpected token",
            Message::Parse(ParseErrorKind::IntTooLarge) => "integer literal is too large",
        }
    }
}

/// Whether a string is a given word.
pub fn is_word(s: &String, word: &str) -> (r: bool)
    ensures
        r == (s@ == word@),
{
    *s == String::from_str(word)
}

/// What an attribute says, and the error to report for it, if any. An
/// attribute says something if it is an attribute proper whose path
/// begins with `lr`: `lr::ty` with a signature between delimiters gives
/// the signature, and an error where the signature does not parse;
/// `lr::assume` marks the signature as trusted; any other path under `lr`
/// is an error.
pub open spec fn parse_attribute_spec(attr: &Attribute) -> (Option<LrSpec>, Option<Diagnostic>) {
    let invalid = Diagnostic { span: attr.span, message: Message::InvalidAnnotation };
    if !attr.normal || attr.segments@.len() == 0 || attr.segments@[0]@ != "lr"@ {
        (None, None)
    } else if attr.segments@.len() == 2 && attr.segments@[1]@ == "ty"@ {
        match attr.args {
            AttrArgs::Delimited(_, Ok(fn_sig)) => (Some(LrSpec::Assert(fn_sig)), None),
            AttrArgs::Delimited(_, Err(err)) => (
                None,
                Some(Diagnostic { span: err.span, message: Message::Parse(err.kind) }),
            ),
            _ => (None, Some(invalid)),
        }
    } else if attr.segments@.len() == 2 && attr.segments@[1]@ == "assume"@ {
        (Some(LrSpec::Assume), None)
    } else {
        (None, Some(invalid))
    }
}

/// The collector as contracts see it.
pub struct CollectorModel {
    pub specs: Map<LocalDefId, SurfaceSpec>,
    pub errors: Seq<Diagnostic>,
    pub fun_defs: Map<Ident, LocalDefId>,
}

impl CollectorModel {
    pub open spec fn with_error(self, d: Option<Diagnostic>) -> CollectorModel {
        match d {
            Some(d) => CollectorModel { errors: self.errors.push(d), ..self },
            None => self,
        }
    }

    /// The annotations of a function from the `i`-th on, given the
    /// signature found before and whether a mark of trust was found. A
    /// second signature is an error, and the function then gets none at
    /// all.
    pub open spec fn parse_annotations(
        self,
        def_id: LocalDefId,
        attrs: Seq<Attribute>,
        i: int,
        fn_sig: Option<SurfaceSig>,
        trusted: bool,
    ) -> CollectorModel
        decreases attrs.len() - i,
    {
        if i < 0 || i >= attrs.len() {
            match fn_sig {
                Some(fn_sig) => CollectorModel {
                    specs: self.specs.insert(def_id, SurfaceSpec { fn_sig, trusted }),
                    ..self
                },
                None => self,
            }
        } else {
            let (spec, d) = parse_attribute_spec(&attrs[i]);
            let next = self.with_error(d);
            match spec {
                Some(LrSpec::Assert(sig)) => if fn_sig is Some {
                    next.with_error(
                        Some(Diagnostic { span: sig.span, message: Message::DuplicatedSignature }),
                    )
                } else {
                    next.parse_annotations(def_id, attrs, i + 1, Some(sig), trusted)
                },
                Some(LrSpec::Assume) => next.parse_annotations(def_id, attrs, i + 1, fn_sig, true),
                None => next.parse_annotations(def_id, attrs, i + 1, fn_sig, trusted),
            }
        }
    }

    /// A function of the program: its name is recorded, then its
    /// annotations are read.
    pub open spec fn visit_item(self, item: &FnItem) -> CollectorModel {
        (CollectorModel { fun_defs: self.fun_defs.insert(item.ident, item.def_id), ..self }).parse_annotations(
            item.def_id,
            item.attrs@,
            0,
            None,
            false,
        )
    }

    pub open spec fn visit_items(self, items: Seq<FnItem>, i: int) -> CollectorModel
        decreases items.len() - i,
    {
        if i < 0 || i >= items.len() {
            self
        } else {
            self.visit_item(&items[i]).visit_items(items, i + 1)
        }
    }

    /// An attribute anywhere in the program: a signature that names a
    /// function of the program becomes the trusted signature of that
    /// function.
    pub open spec fn visit_attribute(self, attr: &Attribute) -> CollectorModel {
        let (spec, d) = parse_attribute_spec(attr);
        let next = self.with_error(d);
        match spec {
            Some(LrSpec::Assert(sig)) => match sig.name {
                Some(ident) => if next.fun_defs.contains_key(ident) {
                    CollectorModel {
                        specs: next.specs.insert(
                            next.fun_defs[ident],
                            SurfaceSpec { fn_sig: sig, trusted: true },
                        ),
                        ..next
                    }
                } else {
                    next
                },
                None => next,
            },
            _ => next,
        }
    }

    pub open spec fn visit_attributes(self, attrs: Seq<Attribute>, i: int) -> CollectorModel
        decreases attrs.len() - i,
    {
        if i < 0 || i >= attrs.len() {
            self
        } else {
            self.visit_attribute(&attrs[i]).visit_attributes(attrs, i + 1)
        }
    }

    pub open spec fn empty() -> CollectorModel {
        CollectorModel { specs: Map::empty(), errors: Seq::empty(), fun_defs: Map::empty() }
    }

    /// What collecting leaves: the functions are visited in order, then
    /// the attributes of the whole program.
    pub open spec fn collect(items: Seq<FnItem>, attributes: Seq<Attribute>) -> CollectorModel {
        CollectorModel::empty().visit_items(items, 0).visit_attributes(attributes, 0)
    }
}

pub struct SpecCollector {
    specs: FxHashMap<LocalDefId, SurfaceSpec>,
    errors: Vec<Diagnostic>,
    fun_defs: FxHashMap<Ident, LocalDefId>,
}

impl View for SpecCollector {
    type V = CollectorModel;

    closed spec fn view(&self) -> CollectorModel {
        CollectorModel { specs: self.specs@, errors: self.errors@, fun_defs: self.fun_defs@ }
    }
}

impl SpecCollector {
    pub fn new() -> (c: SpecCollector)
        ensures
            c@ == CollectorModel::empty(),
    {
        let c = SpecCollector { specs: fx_new(), errors: Vec::new(), fun_defs: fx_new() };
        assert(c@.specs =~= Map::empty());
        assert(c@.fun_defs =~= Map::empty());
        c
    }

    /// Records an error.
    fn emit_error(&mut self, message: Message, span: Span)
        ensures
            final(self)@ == old(self)@.with_error(Some(Diagnostic { span, message })),
    {
        self.errors.push(Diagnostic { span, message });
    }

    /// Reads one attribute.
    pub fn parse_attribute(&mut self, attribute: &Attribute) -> (r: Option<LrSpec>)
        ensures
            r == parse_attribute_spec(attribute).0,
            final(self)@ == old(self)@.with_error(parse_attribute_spec(attribute).1),
    {
        if !attribute.normal || attribute.segments.len() == 0 {
            return None;
        }
        // Be sure we are in a `lr` attribute.
        if !is_word(&attribute.segments[0], "lr") {
            return None;
        }
        if attribute.segments.len() == 2 && is_word(&attribute.segments[1], "ty") {
            match attribute.args {
                AttrArgs::Delimited(_, parsed) => self.parse_fn_annot(parsed),
                _ => {
                    self.emit_error(Message::InvalidAnnotation, attribute.span);
                    None
                },
            }
        } else if attribute.segments.len() == 2 && is_word(&attribute.segments[1], "assume") {
            Some(LrSpec::Assume)
        } else {
            self.emit_error(Message::InvalidAnnotation, attribute.span);
            None
        }
    }

    /// The signature that the parser made of an annotation, or the error
    /// to report for it.
    fn parse_fn_annot(&mut self, parsed: Result<SurfaceSig, ParseError>) -> (r: Option<LrSpec>)
        ensures
            match parsed {
                Ok(fn_sig) => r == Some(LrSpec::Assert(fn_sig)) && final(self)@ == old(self)@,
                Err(err) => r is None && final(self)@ == old(self)@.with_error(
                    Some(Diagnostic { span: err.span, message: Message::Parse(err.kind) }),
                ),
            },
    {
        match parsed {
            Ok(fn_sig) => Some(LrSpec::Assert(fn_sig)),
            Err(err) => {
                self.emit_error(Message::Parse(err.kind), err.span);
                None
            },
        }
    }

    /// Reads the annotations of a function.
    pub fn parse_annotations(&mut self, def_id: LocalDefId, attributes: &Vec<Attribute>)
        ensures
            final(self)@ == old(self)@.parse_annotations(def_id, attributes@, 0, None, false),
    {
        let mut fn_sig: Option<SurfaceSig> = None;
        let mut trusted = false;
        let mut i: usize = 0;
        while i < attributes.len()
            invariant
                i <= attributes.len(),
                self@.parse_annotations(def_id, attributes@, i as int, fn_sig, trusted)
                    == old(self)@.parse_annotations(def_id, attributes@, 0, None, false),
            decreases attributes.len() - i,
        {
            if let Some(spec) = self.parse_attribute(&attributes[i]) {
                match spec {
                    LrSpec::Assert(sig) => {
                        if fn_sig.is_some() {
                            self.emit_error(Message::DuplicatedSignature, sig.span);
                            return ;
                        }
                        fn_sig = Some(sig)
                    },
                    LrSpec::Assume => trusted = true,
                }
            }
            i = i + 1;
        }
        if let Some(fn_sig) = fn_sig {
            let _ = fx_insert(&mut self.specs, def_id, SurfaceSpec { fn_sig, trusted });
        }
    }

    fn insert_fun_def(&mut self, ident: Ident, def_id: LocalDefId)
        ensures
            final(self)@ == (CollectorModel {
                fun_defs: old(self)@.fun_defs.insert(ident, def_id),
                ..old(self)@
            }),
    {
        let _ = fx_insert(&mut self.fun_defs, ident, def_id);
    }

    /// Visits a function of the program.
    pub fn visit_item(&mut self, item: &FnItem)
        ensures
            final(self)@ == old(self)@.visit_item(item),
    {
        self.insert_fun_def(item.ident, item.def_id);
        self.parse_annotations(item.def_id, &item.attrs);
    }

    /// Visits an attribute of the program.
    pub fn visit_attribute(&mut self, attr: &Attribute)
        ensures
            final(self)@ == old(self)@.visit_attribute(attr),
    {
        if let Some(LrSpec::Assert(sig)) = self.parse_attribute(attr) {
            if let Some(ident) = sig.name {
                let def_id = match fx_get(&self.fun_defs, ident) {
                    Some(def_id) => Some(*def_id),
                    None => None,
                };
                if let Some(def_id) = def_id {
                    let _ = fx_insert(&mut self.specs, def_id, SurfaceSpec { fn_sig: sig, trusted: true });
                }
            }
        }
    }

    /// Collects the annotations of a program: the signatures by function,
    /// unless an error was found, and the errors to report.
    pub fn collect(items: &Vec<FnItem>, attributes: &Vec<Attribute>) -> (r: (
        Vec<Diagnostic>,
        Result<FxHashMap<LocalDefId, SurfaceSpec>, ErrorReported>,
    ))
        ensures
            r.0@ == CollectorModel::collect(items@, attributes@).errors,
            match r.1 {
                Ok(specs) => r.0@.len() == 0 && specs@ == CollectorModel::collect(items@, attributes@).specs,
                Err(_) => r.0@.len() > 0,
            },
    {
        let mut collector = SpecCollector::new();
        let mut i: usize = 0;
        while i < items.len()
            invariant
                i <= items.len(),
                collector@.visit_items(items@, i as int) == CollectorModel::empty().visit_items(items@, 0),
            decreases items.len() - i,
        {
            collector.visit_item(&items[i]);
            i = i + 1;
        }
        let ghost mid = collector@;
        let mut j: usize = 0;
        while j < attributes.len()
            invariant
                j <= attributes.len(),
                collector@.visit_attributes(attributes@, j as int) == mid.visit_attributes(attributes@, 0),
            decreases attributes.len() - j,
        {
            collector.visit_attribute(&attributes[j]);
            j = j + 1;
        }
        if collector.errors.len() > 0 {
            (collector.errors, Err(ErrorReported))
        } else {
            (collector.errors, Ok(collector.specs))
        }
    }
}

} // verus!
