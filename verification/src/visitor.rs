//! The functions of a program with the types that their annotations give
//! them.

use vstd::prelude::*;
use crate::collector::is_word;
use crate::intern::Interner;
use crate::ir::Body;
use crate::ty::Ty;

verus! {

#[derive(Clone, Copy, Debug, PartialEq, Eq, Structural)]
pub enum Annotation {
    /// The function has this type.
    Ty(Ty),
}

/// A function: its body and its annotations.
#[derive(Debug)]
pub struct Function {
    pub body: Body,
    pub anns: Vec<Annotation>,
}

impl Function {
    pub fn new(body: Body, anns: Vec<Annotation>) -> (f: Function)
        ensures
            f.body == body,
            f.anns == anns,
    {
        Function { body, anns }
    }
}

/// The arguments of an attribute under `liquid`.
#[derive(Clone, Copy, Debug)]
pub enum TyArgs {
    Empty,
    /// Tokens between delimiters, and the type that they were read as, if
    /// they could be read as one with nothing left over.
    Delimited(Option<Ty>),
    Eq,
}

#[derive(Debug)]
pub struct LiquidAttr {
    /// Whether this is an attribute proper, and not a documentation
    /// comment.
    pub normal: bool,
    pub segments: Vec<String>,
    pub args: TyArgs,
}

/// An item of the program.
#[derive(Debug)]
pub struct Item {
    pub is_fn: bool,
    pub body: Body,
    pub attrs: Vec<LiquidAttr>,
}

/// Why the annotations of a function cannot be read. The field is the
/// position of the attribute among those of the function.
#[derive(Clone, Copy, Debug, PartialEq, Eq, Structural)]
pub enum AnnotationError {
    /// An attribute under `liquid` that is not `liquid::ty`.
    Unknown(usize),
    /// A `liquid::ty` without tokens between delimiters.
    NoTokens(usize),
    /// A `liquid::ty` whose tokens are not a type.
    NotAType(usize),
}

/// What an attribute adds to the annotations of a function: nothing,
/// unless it is an attribute proper under `liquid`; the type, if it is
/// `liquid::ty` with a type between delimiters.
pub open spec fn annotation_spec(attr: &LiquidAttr, i: usize) -> Result<Option<Annotation>, AnnotationError> {
    if !attr.normal || attr.segments@.len() == 0 || attr.segments@[0]@ != "liquid"@ {
        Ok(None)
    } else if attr.segments@.len() >= 2 && attr.segments@[1]@ == "ty"@ {
        match attr.args {
            TyArgs::Delimited(Some(ty)) => Ok(Some(Annotation::Ty(ty))),
            TyArgs::Delimited(None) => Err(AnnotationError::NotAType(i)),
            _ => Err(AnnotationError::NoTokens(i)),
        }
    } else {
        Err(AnnotationError::Unknown(i))
    }
}

/// Puts `acc` before the annotations of an outcome.
pub open spec fn with_anns(acc: Seq<Annotation>, o: Result<Seq<Annotation>, AnnotationError>) -> Result<
    Seq<Annotation>,
    AnnotationError,
> {
    match o {
        Ok(anns) => Ok(acc + anns),
        Err(e) => Err(e),
    }
}

/// The annotations that the attributes from `i` on give, in order, or the
/// first error.
pub open spec fn get_anns_spec(attrs: Seq<LiquidAttr>, i: int) -> Result<Seq<Annotation>, AnnotationError>
    decreases attrs.len() - i,
{
    if i < 0 || i >= attrs.len() {
        Ok(Seq::empty())
    } else {
        match annotation_spec(&attrs[i], i as usize) {
            Ok(Some(ann)) => with_anns(seq![ann], get_anns_spec(attrs, i + 1)),
            Ok(None) => get_anns_spec(attrs, i + 1),
            Err(e) => Err(e),
        }
    }
}

/// The context in which types are built.
pub struct Context {
    pub interner: Interner,
}

pub struct MyVisitor {
    fns: Vec<Function>,
    ctx: Context,
}

impl MyVisitor {
    /// The functions visited so far.
    pub closed spec fn fns(&self) -> Seq<Function> {
        self.fns@
    }

    pub closed spec fn ctx(&self) -> Context {
        self.ctx
    }

    /// A visitor in a typing context that has seen no function.
    pub fn from_tcx(ctx: Context) -> (v: MyVisitor)
        ensures
            v.fns() == Seq::<Function>::empty(),
            v.ctx() == ctx,
    {
        MyVisitor { fns: Vec::new(), ctx }
    }

    pub fn push_fn(&mut self, func: Function)
        ensures
            final(self).fns() == old(self).fns().push(func),
            final(self).ctx() == old(self).ctx(),
    {
        self.fns.push(func);
    }

    /// The functions visited, and the context.
    pub fn into_parts(self) -> (r: (Vec<Function>, Context))
        ensures
            r.0@ == self.fns(),
            r.1 == self.ctx(),
    {
        (self.fns, self.ctx)
    }

    /// The annotations that the attributes of a function give, or what is
    /// wrong with the first attribute that gives none.
    fn read_anns(attrs: &Vec<LiquidAttr>) -> (r: Result<Vec<Annotation>, AnnotationError>)
        ensures
            match r {
                Ok(anns) => get_anns_spec(attrs@, 0) == Ok::<Seq<Annotation>, AnnotationError>(anns@),
                Err(e) => get_anns_spec(attrs@, 0) == Err::<Seq<Annotation>, AnnotationError>(e),
            },
    {
        let mut anns: Vec<Annotation> = Vec::new();
        let mut i: usize = 0;
        while i < attrs.len()
            invariant
                i <= attrs.len(),
                with_anns(anns@, get_anns_spec(attrs@, i as int)) == get_anns_spec(attrs@, 0),
            decreases attrs.len() - i,
        {
            let attr = &attrs[i];
            let ghost before = anns@;
            if attr.normal && attr.segments.len() > 0 && is_word(&attr.segments[0], "liquid") {
                if attr.segments.len() >= 2 && is_word(&attr.segments[1], "ty") {
                    match attr.args {
                        TyArgs::Delimited(Some(ty)) => {
                            anns.push(Annotation::Ty(ty));
                            proof {
                                match get_anns_spec(attrs@, i + 1) {
                                    Ok(more) => {
                                        assert(before + (seq![Annotation::Ty(ty)] + more) =~= anns@ + more);
                                    },
                                    Err(_) => {},
                                }
                            }
                        },
                        TyArgs::Delimited(None) => {
                            return Err(AnnotationError::NotAType(i));
                        },
                        _ => {
                            return Err(AnnotationError::NoTokens(i));
                        },
                    }
                } else {
                    return Err(AnnotationError::Unknown(i));
                }
            }
            i = i + 1;
        }
        assert(anns@ + Seq::<Annotation>::empty() =~= anns@);
        Ok(anns)
    }

    /// What is wrong with the first attribute that cannot be read, if
    /// there is one: the test to make before `get_anns` and `visit_item`,
    /// which take only attributes that can all be read.
    pub fn first_malformed(attrs: &Vec<LiquidAttr>) -> (r: Option<AnnotationError>)
        ensures
            match r {
                Some(e) => get_anns_spec(attrs@, 0) == Err::<Seq<Annotation>, AnnotationError>(e),
                None => get_anns_spec(attrs@, 0) is Ok,
            },
    {
        match Self::read_anns(attrs) {
            Ok(_) => None,
            Err(e) => Some(e),
        }
    }

    /// The annotations that the attributes of a function give, in the
    /// order of the attributes. Every attribute must be one that can be
    /// read: `first_malformed` tells.
    pub fn get_anns(&self, attrs: &Vec<LiquidAttr>) -> (anns: Vec<Annotation>)
        requires
            get_anns_spec(attrs@, 0) is Ok,
        ensures
            get_anns_spec(attrs@, 0) == Ok::<Seq<Annotation>, AnnotationError>(anns@),
    {
        match Self::read_anns(attrs) {
            Ok(anns) => anns,
            Err(_) => Vec::new(),
        }
    }

    /// Visits an item: a function is kept with its annotations, anything
    /// else is passed over. The attributes of a function must be ones that
    /// can all be read.
    pub fn visit_item(&mut self, item: Item)
        requires
            item.is_fn ==> get_anns_spec(item.attrs@, 0) is Ok,
        ensures
            final(self).ctx() == old(self).ctx(),
            !item.is_fn ==> final(self).fns() == old(self).fns(),
            item.is_fn ==> final(self).fns().len() == old(self).fns().len() + 1
                && final(self).fns().drop_last() == old(self).fns()
                && final(self).fns().last().body == item.body
                && get_anns_spec(item.attrs@, 0) == Ok::<Seq<Annotation>, AnnotationError>(
                final(self).fns().last().anns@,
            ),
    {
        if item.is_fn {
            let anns = self.get_anns(&item.attrs);
            let func = Function::new(item.body, anns);
            self.push_fn(func);
            assert(self.fns().drop_last() =~= old(self).fns());
        }
    }
}

} // verus!
