//! A refinement-type checker for a control-flow-graph intermediate
//! representation.
//!
//! A function body is a graph of basic blocks; its signature is written in a
//! language of base types decorated with logical predicates, with regions
//! behind mutable references. Checking a body walks the graph once and turns
//! every typing judgment into a goal of a constraint tree, which an external
//! solver then decides.
//!
//! The data: [`ty`] has the types and the nodes of expressions, [`intern`]
//! the arena that stores each expression once, [`subst`] substitution,
//! [`ir`] the bodies, [`global_env`] the signatures and [`wf`] their
//! well-formedness.
//!
//! The state of a check: [`env`] is the typed environment, [`constraint`]
//! the constraint tree with its cursor, [`disjoint_sets`] and [`inference`]
//! the shapes of join points.
//!
//! The rules: [`rules`] for operands, right-hand sides and statements,
//! [`switch`] for branches, [`call`] for calls, [`lowering`] for the entry
//! of a function, and [`checker`] for the walk over the graph.
//!
//! The boundary: [`emit`] writes the query for the solver, [`verdict`]
//! reads its answer, [`result`] has the verdicts and the failures,
//! [`collector`] and [`visitor`] read what the annotations of a program
//! say, and [`driver`] decides what is checked.
//!
//! What is proved of all this beyond the contracts of the functions is in
//! the laws: of interning in [`intern`], of substitution in [`subst`], of
//! ownership in [`env`] and [`rules`], of calls in [`call`], of what the
//! goals of subtyping, the guards of branches and lists of conjuncts mean
//! in [`semantics`], and of join points in [`disjoint_sets`],
//! [`shape_laws`] and [`checker`].

pub mod ty;
pub mod intern;
pub mod subst;
pub mod ir;
pub mod global_env;
pub mod wf;

pub mod env;
pub mod constraint;
pub mod disjoint_sets;
pub mod inference;

pub mod rules;
pub mod switch;
pub mod call;
pub mod lowering;
pub mod checker;

pub mod emit;
pub mod result;
pub mod verdict;
pub mod collector;
pub mod visitor;
pub mod driver;

pub mod semantics;
pub mod shape_laws;

pub mod fxmap;
