//! The text of a constraint tree, in the query language of the solver.

use vstd::prelude::*;
use vstd::string::StringExecFns;
use crate::constraint::{mentions_binder, mentions_binder_spec, ConstraintBuilder, Node, NodeKind, TreeModel};
use crate::intern::Interner;
use crate::ty::{BaseTy, BinOp, Constant, ExprId, ExprNode, HoleId, Name, Sign, Sort, UnOp};

verus! {

/// The numeral of a digit.
pub open spec fn digit_spec(d: nat) -> Seq<char> {
    if d == 0 {
        "0"@
    } else if d == 1 {
        "1"@
    } else if d == 2 {
        "2"@
    } else if d == 3 {
        "3"@
    } else if d == 4 {
        "4"@
    } else if d == 5 {
        "5"@
    } else if d == 6 {
        "6"@
    } else if d == 7 {
        "7"@
    } else if d == 8 {
        "8"@
    } else {
        "9"@
    }
}

/// The decimal numeral of a number, without leading zeros.
pub open spec fn decimal_spec(n: nat) -> Seq<char>
    decreases n,
{
    if n < 10 {
        digit_spec(n)
    } else {
        decimal_spec(n / 10) + digit_spec(n % 10)
    }
}

fn digit(d: u128) -> (s: &'static str)
    requires
        d < 10,
    ensures
        s@ == digit_spec(d as nat),
{
    if d == 0 {
        "0"
    } else if d == 1 {
        "1"
    } else if d == 2 {
        "2"
    } else if d == 3 {
        "3"
    } else if d == 4 {
        "4"
    } else if d == 5 {
        "5"
    } else if d == 6 {
        "6"
    } else if d == 7 {
        "7"
    } else if d == 8 {
        "8"
    } else {
        "9"
    }
}

/// The decimal numeral of a number.
pub fn decimal(n: u128) -> (s: String)
    ensures
        s@ == decimal_spec(n as nat),
    decreases n,
{
    if n < 10 {
        String::from_str(digit(n))
    } else {
        let mut s = decimal(n / 10);
        s.append(digit(n % 10));
        s
    }
}

pub open spec fn emit_sort_spec(sort: Sort) -> Seq<char> {
    match sort {
        Sort::Int => "int"@,
        Sort::Bool => "bool"@,
    }
}

/// A base type is written as its sort: every number is an `int`, and so is
/// the unit.
pub open spec fn emit_base_ty_spec(bty: BaseTy) -> Seq<char> {
    emit_sort_spec(bty.sort_spec())
}

/// Negation is written `not`.
pub open spec fn emit_un_op_spec(op: UnOp) -> Seq<char> {
    match op {
        UnOp::Not => "not"@,
        UnOp::Neg => "-"@,
    }
}

/// Equality of booleans is written `<=>`.
pub open spec fn emit_bin_op_spec(op: BinOp, operands: Sort) -> Seq<char> {
    match op {
        BinOp::Eq => match operands {
            Sort::Bool => "<=>"@,
            Sort::Int => "="@,
        },
        BinOp::Ne => "!="@,
        BinOp::Gt => ">"@,
        BinOp::Ge => ">="@,
        BinOp::Lt => "<"@,
        BinOp::Le => "<="@,
        BinOp::And => "&&"@,
        BinOp::Or => "||"@,
        BinOp::Add => "+"@,
        BinOp::Sub => "-"@,
        BinOp::Mul => "*"@,
        BinOp::Div => "/"@,
    }
}

pub open spec fn emit_constant_spec(c: Constant) -> Seq<char> {
    match c {
        Constant::Bool(true) => "true"@,
        Constant::Bool(false) => "false"@,
        Constant::Int(Sign::Positive, n) => decimal_spec(n as nat),
        Constant::Int(Sign::Negative, n) => "-"@ + decimal_spec(n as nat),
    }
}

/// A logical variable is written with its number.
pub open spec fn emit_variable_spec(x: Name) -> Seq<char> {
    "a"@ + decimal_spec(x as nat)
}

/// A hole is written with its number.
pub open spec fn emit_hole_spec(k: HoleId) -> Seq<char> {
    "$p"@ + decimal_spec(k as nat)
}

/// Every name of the expression is one of the first `n` names: a name
/// that the builder made.
pub open spec fn names_known_spec(nodes: Seq<ExprNode>, n: nat, e: ExprId) -> bool
    decreases e,
{
    if e < nodes.len() {
        match nodes[e as int] {
            ExprNode::Free(x) => x < n,
            ExprNode::Hole(_, a) => a < e && names_known_spec(nodes, n, a),
            ExprNode::UnaryOp(_, a) => a < e && names_known_spec(nodes, n, a),
            ExprNode::BinaryOp(_, a, b) => a < e && b < e && names_known_spec(nodes, n, a)
                && names_known_spec(nodes, n, b),
            ExprNode::Cons(a, b) => a < e && b < e && names_known_spec(nodes, n, a)
                && names_known_spec(nodes, n, b),
            _ => true,
        }
    } else {
        false
    }
}

/// An expression that can stand in a tree: every name is one that the
/// builder made, and the implicit binder does not occur.
pub open spec fn writable_spec(nodes: Seq<ExprNode>, n: nat, e: ExprId) -> bool {
    names_known_spec(nodes, n, e) && !mentions_binder_spec(nodes, e)
}

/// A node that can be written: its variable, if it binds one, is one that
/// the builder made, and its expression can stand in a tree.
pub open spec fn node_writable_spec(nodes: Seq<ExprNode>, n: nat, kind: NodeKind) -> bool {
    match kind {
        NodeKind::Scope => true,
        NodeKind::ForAll(x, _, p) => x < n && writable_spec(nodes, n, p),
        NodeKind::Guard(p) => writable_spec(nodes, n, p),
        NodeKind::Head(p) => writable_spec(nodes, n, p),
    }
}

/// Every node of the tree can be written.
pub open spec fn tree_writable_spec(nodes: Seq<ExprNode>, tree: TreeModel) -> bool {
    forall|i: int|
        0 <= i < tree.nodes.len() ==> node_writable_spec(nodes, tree.names.len(), (#[trigger] tree.nodes[i]).kind)
}

/// The sort of an expression, read off its outermost node. The implicit
/// binder has the sort `bound`; a name that the builder did not make has
/// none, and counts as an integer.
pub open spec fn sort_of_spec(nodes: Seq<ExprNode>, names: Seq<Sort>, bound: Sort, e: ExprId) -> Sort {
    if e < nodes.len() {
        match nodes[e as int] {
            ExprNode::Bound => bound,
            ExprNode::Free(x) => if x < names.len() {
                names[x as int]
            } else {
                Sort::Int
            },
            ExprNode::Constant(Constant::Bool(_)) => Sort::Bool,
            ExprNode::Constant(Constant::Int(_, _)) => Sort::Int,
            ExprNode::Hole(_, _) => Sort::Bool,
            ExprNode::UnaryOp(UnOp::Not, _) => Sort::Bool,
            ExprNode::UnaryOp(UnOp::Neg, _) => Sort::Int,
            ExprNode::BinaryOp(op, _, _) => match op {
                BinOp::Add | BinOp::Sub | BinOp::Mul | BinOp::Div => Sort::Int,
                _ => Sort::Bool,
            },
            ExprNode::Nil => Sort::Bool,
            ExprNode::Cons(_, _) => Sort::Bool,
        }
    } else {
        Sort::Int
    }
}

/// The text of an expression in which the implicit binder has the sort
/// `bound`. The binder is written `b`; an operator is written between its
/// operands, and every application is in parentheses. Equality of
/// booleans is written `<=>`: whether an equality is one of booleans is
/// read off its left operand. A list of conjuncts is written between
/// square brackets, with a semicolon and a space between two conjuncts.
pub open spec fn emit_predicate_spec(nodes: Seq<ExprNode>, names: Seq<Sort>, bound: Sort, e: ExprId) -> Seq<
    char,
>
    decreases e, 0nat,
{
    if e < nodes.len() {
        match nodes[e as int] {
            ExprNode::Bound => "b"@,
            ExprNode::Free(x) => emit_variable_spec(x),
            ExprNode::Constant(c) => emit_constant_spec(c),
            ExprNode::Hole(k, a) => if a < e {
                "("@ + emit_hole_spec(k) + " "@ + emit_predicate_spec(nodes, names, bound, a) + ")"@
            } else {
                Seq::empty()
            },
            ExprNode::UnaryOp(op, a) => if a < e {
                "("@ + emit_un_op_spec(op) + " "@ + emit_predicate_spec(nodes, names, bound, a) + ")"@
            } else {
                Seq::empty()
            },
            ExprNode::BinaryOp(op, a, b) => if a < e && b < e {
                "("@ + emit_predicate_spec(nodes, names, bound, a) + " "@ + emit_bin_op_spec(
                    op,
                    sort_of_spec(nodes, names, bound, a),
                ) + " "@ + emit_predicate_spec(nodes, names, bound, b) + ")"@
            } else {
                Seq::empty()
            },
            ExprNode::Nil => "[]"@,
            ExprNode::Cons(a, b) => if a < e && b < e {
                "["@ + emit_predicate_spec(nodes, names, bound, a) + emit_rest_spec(nodes, names, bound, b) + "]"@
            } else {
                Seq::empty()
            },
        }
    } else {
        Seq::empty()
    }
}

/// The text of the conjuncts of a list that follow the first: each after
/// a semicolon and a space. A rest that is no list is written as the last
/// conjunct.
pub open spec fn emit_rest_spec(nodes: Seq<ExprNode>, names: Seq<Sort>, bound: Sort, e: ExprId) -> Seq<char>
    decreases e, 1nat,
{
    if e < nodes.len() {
        match nodes[e as int] {
            ExprNode::Nil => Seq::empty(),
            ExprNode::Cons(a, b) => if a < e && b < e {
                "; "@ + emit_predicate_spec(nodes, names, bound, a) + emit_rest_spec(nodes, names, bound, b)
            } else {
                Seq::empty()
            },
            _ => "; "@ + emit_predicate_spec(nodes, names, bound, e),
        }
    } else {
        Seq::empty()
    }
}

/// The text of an expression in parentheses: the text itself where the
/// expression is an application, which has its own.
pub open spec fn emit_paren_spec(nodes: Seq<ExprNode>, names: Seq<Sort>, bound: Sort, e: ExprId) -> Seq<
    char,
> {
    if e < nodes.len() && (nodes[e as int] is Hole || nodes[e as int] is UnaryOp
        || nodes[e as int] is BinaryOp) {
        emit_predicate_spec(nodes, names, bound, e)
    } else {
        "("@ + emit_predicate_spec(nodes, names, bound, e) + ")"@
    }
}

/// The text of the node `i` of a tree. No expression of a tree mentions
/// the implicit binder. A head is its goal; a scope is the
/// conjunction of what it holds, under its binder and hypothesis if it has
/// any. A guard binds a variable that nothing names.
pub open spec fn emit_node_spec(nodes: Seq<ExprNode>, tree: TreeModel, i: int) -> Seq<char>
    decreases tree.nodes.len() - i, 1int, 0int,
{
    if 0 <= i < tree.nodes.len() {
        match tree.nodes[i].kind {
            NodeKind::Head(p) => "("@ + emit_paren_spec(nodes, tree.names, Sort::Int, p) + ")"@,
            NodeKind::Scope => "(and"@ + emit_children_spec(nodes, tree, i, i + 1) + ")"@,
            NodeKind::ForAll(x, sort, p) => "(forall (("@ + emit_variable_spec(x) + " "@ + emit_sort_spec(
                sort,
            ) + ") "@ + emit_paren_spec(nodes, tree.names, Sort::Int, p) + ") (and"@ + emit_children_spec(
                nodes,
                tree,
                i,
                i + 1,
            ) + "))"@,
            NodeKind::Guard(p) => "(forall ((_ int) "@ + emit_paren_spec(nodes, tree.names, Sort::Int, p)
                + ") (and"@ + emit_children_spec(nodes, tree, i, i + 1) + "))"@,
        }
    } else {
        Seq::empty()
    }
}

/// The text of the nodes from `j` on that the scope `i` holds, each after
/// a blank.
pub open spec fn emit_children_spec(nodes: Seq<ExprNode>, tree: TreeModel, i: int, j: int) -> Seq<char>
    decreases tree.nodes.len() - i, 0int, tree.nodes.len() - j,
{
    if 0 <= i < j < tree.nodes.len() {
        (if tree.nodes[j].parent == i {
            " "@ + emit_node_spec(nodes, tree, j)
        } else {
            Seq::empty()
        }) + emit_children_spec(nodes, tree, i, j + 1)
    } else {
        Seq::empty()
    }
}

/// The declarations of the holes from `k` on, one on a line: each hole
/// with the sort of the value that it is said of.
pub open spec fn emit_holes_spec(holes: Seq<Sort>, k: int) -> Seq<char>
    decreases holes.len() - k,
{
    if 0 <= k < holes.len() {
        "(var "@ + emit_hole_spec(k as usize) + " (("@ + emit_sort_spec(holes[k]) + ")))\n"@
            + emit_holes_spec(holes, k + 1)
    } else {
        Seq::empty()
    }
}

/// The query that a tree stands for: the declarations of its holes, then
/// the constraint.
pub open spec fn to_fixpoint_spec(nodes: Seq<ExprNode>, tree: TreeModel) -> Seq<char> {
    emit_holes_spec(tree.holes, 0) + "(constraint "@ + emit_node_spec(nodes, tree, 0) + ")\n"@
}

/// Writes the expressions of an arena and the trees built over it.
pub struct Emitter<'a> {
    pub interner: &'a Interner,
    pub builder: &'a ConstraintBuilder,
}

impl<'a> Emitter<'a> {
    /// The arena is well formed and every node of the tree can be
    /// written.
    pub open spec fn wf(&self) -> bool {
        &&& self.interner.wf()
        &&& self.builder.wf()
        &&& tree_writable_spec(self.interner@, self.builder@)
    }

    /// Whether every name of an expression is one that the builder made.
    pub fn names_known(&self, e: ExprId) -> (r: bool)
        requires
            self.interner.wf(),
        ensures
            r == names_known_spec(self.interner@, self.builder@.names.len(), e),
        decreases e,
    {
        if e >= self.interner.len() {
            return false;
        }
        assert(self.interner@[e as int].children_below(e as nat));
        match self.interner.get(e) {
            ExprNode::Free(x) => x < self.builder.num_names(),
            ExprNode::Hole(_, a) => self.names_known(a),
            ExprNode::UnaryOp(_, a) => self.names_known(a),
            ExprNode::BinaryOp(_, a, b) => self.names_known(a) && self.names_known(b),
            ExprNode::Cons(a, b) => self.names_known(a) && self.names_known(b),
            _ => true,
        }
    }

    /// Whether an expression can stand in a tree.
    pub fn expr_writable(&self, e: ExprId) -> (r: bool)
        requires
            self.interner.wf(),
        ensures
            r == writable_spec(self.interner@, self.builder@.names.len(), e),
    {
        self.names_known(e) && !mentions_binder(self.interner, e)
    }

    /// Whether every node of the tree can be written: the test to make
    /// before the tree is written.
    pub fn writable(&self) -> (r: bool)
        requires
            self.interner.wf(),
        ensures
            r == tree_writable_spec(self.interner@, self.builder@),
    {
        let mut i: usize = 0;
        while i < self.builder.len()
            invariant
                self.interner.wf(),
                i <= self.builder@.nodes.len(),
                forall|k: int|
                    0 <= k < i ==> node_writable_spec(
                        self.interner@,
                        self.builder@.names.len(),
                        (#[trigger] self.builder@.nodes[k]).kind,
                    ),
            decreases self.builder@.nodes.len() - i,
        {
            let ok = match self.builder.node(i).kind {
                NodeKind::Scope => true,
                NodeKind::ForAll(x, _, p) => x < self.builder.num_names() && self.expr_writable(p),
                NodeKind::Guard(p) => self.expr_writable(p),
                NodeKind::Head(p) => self.expr_writable(p),
            };
            if !ok {
                assert(!node_writable_spec(
                    self.interner@,
                    self.builder@.names.len(),
                    self.builder@.nodes[i as int].kind,
                ));
                return false;
            }
            i = i + 1;
        }
        true
    }

    pub fn new(interner: &'a Interner, builder: &'a ConstraintBuilder) -> (e: Emitter<'a>)
        ensures
            e.interner == interner,
            e.builder == builder,
    {
        Emitter { interner, builder }
    }

    pub fn emit_sort(sort: Sort) -> (s: &'static str)
        ensures
            s@ == emit_sort_spec(sort),
    {
        match sort {
            Sort::Int => "int",
            Sort::Bool => "bool",
        }
    }

    pub fn emit_base_ty(bty: BaseTy) -> (s: &'static str)
        ensures
            s@ == emit_base_ty_spec(bty),
    {
        Self::emit_sort(bty.sort())
    }

    pub fn emit_un_op(op: UnOp) -> (s: &'static str)
        ensures
            s@ == emit_un_op_spec(op),
    {
        match op {
            UnOp::Not => "not",
            UnOp::Neg => "-",
        }
    }

    pub fn emit_bin_op(op: BinOp, operands: Sort) -> (s: &'static str)
        ensures
            s@ == emit_bin_op_spec(op, operands),
    {
        match op {
            BinOp::Eq => match operands {
                Sort::Bool => "<=>",
                Sort::Int => "=",
            },
            BinOp::Ne => "!=",
            BinOp::Gt => ">",
            BinOp::Ge => ">=",
            BinOp::Lt => "<",
            BinOp::Le => "<=",
            BinOp::And => "&&",
            BinOp::Or => "||",
            BinOp::Add => "+",
            BinOp::Sub => "-",
            BinOp::Mul => "*",
            BinOp::Div => "/",
        }
    }

    pub fn emit_constant(c: Constant) -> (s: String)
        ensures
            s@ == emit_constant_spec(c),
    {
        match c {
            Constant::Bool(true) => String::from_str("true"),
            Constant::Bool(false) => String::from_str("false"),
            Constant::Int(Sign::Positive, n) => decimal(n),
            Constant::Int(Sign::Negative, n) => {
                let mut s = String::from_str("-");
                s.append(decimal(n).as_str());
                s
            },
        }
    }

    pub fn emit_variable(x: Name) -> (s: String)
        ensures
            s@ == emit_variable_spec(x),
    {
        let mut s = String::from_str("a");
        s.append(decimal(x as u128).as_str());
        s
    }

    pub fn emit_hole(k: HoleId) -> (s: String)
        ensures
            s@ == emit_hole_spec(k),
    {
        let mut s = String::from_str("$p");
        s.append(decimal(k as u128).as_str());
        s
    }

    /// The sort of an expression in which the implicit binder has the sort
    /// `bound`.
    pub fn sort_of(&self, e: ExprId, bound: Sort) -> (s: Sort)
        ensures
            s == sort_of_spec(self.interner@, self.builder@.names, bound, e),
    {
        if e < self.interner.len() {
            match self.interner.get(e) {
                ExprNode::Bound => bound,
                ExprNode::Free(x) => if x < self.builder.num_names() {
                    self.builder.sort_of(x)
                } else {
                    Sort::Int
                },
                ExprNode::Constant(Constant::Bool(_)) => Sort::Bool,
                ExprNode::Constant(Constant::Int(_, _)) => Sort::Int,
                ExprNode::Hole(_, _) => Sort::Bool,
                ExprNode::UnaryOp(UnOp::Not, _) => Sort::Bool,
                ExprNode::UnaryOp(UnOp::Neg, _) => Sort::Int,
                ExprNode::BinaryOp(op, _, _) => match op {
                    BinOp::Add | BinOp::Sub | BinOp::Mul | BinOp::Div => Sort::Int,
                    _ => Sort::Bool,
                },
                ExprNode::Nil => Sort::Bool,
                ExprNode::Cons(_, _) => Sort::Bool,
            }
        } else {
            Sort::Int
        }
    }

    /// The text of an expression in which the implicit binder has the sort
    /// `bound`. Every name of the expression must be one that the builder
    /// made: `names_known` tells.
    pub fn emit_predicate(&self, e: ExprId, bound: Sort) -> (s: String)
        requires
            self.interner.wf(),
            names_known_spec(self.interner@, self.builder@.names.len(), e),
        ensures
            s@ == emit_predicate_spec(self.interner@, self.builder@.names, bound, e),
        decreases e, 0nat,
    {
        assert(self.interner@[e as int].children_below(e as nat));
        match self.interner.get(e) {
            ExprNode::Bound => String::from_str("b"),
            ExprNode::Free(x) => Self::emit_variable(x),
            ExprNode::Constant(c) => Self::emit_constant(c),
            ExprNode::Hole(k, a) => {
                let mut s = String::from_str("(");
                s.append(Self::emit_hole(k).as_str());
                s.append(" ");
                s.append(self.emit_predicate(a, bound).as_str());
                s.append(")");
                s
            },
            ExprNode::UnaryOp(op, a) => {
                let mut s = String::from_str("(");
                s.append(Self::emit_un_op(op));
                s.append(" ");
                s.append(self.emit_predicate(a, bound).as_str());
                s.append(")");
                s
            },
            ExprNode::BinaryOp(op, a, b) => {
                let mut s = String::from_str("(");
                s.append(self.emit_predicate(a, bound).as_str());
                s.append(" ");
                s.append(Self::emit_bin_op(op, self.sort_of(a, bound)));
                s.append(" ");
                s.append(self.emit_predicate(b, bound).as_str());
                s.append(")");
                s
            },
            ExprNode::Nil => String::from_str("[]"),
            ExprNode::Cons(a, b) => {
                let mut s = String::from_str("[");
                s.append(self.emit_predicate(a, bound).as_str());
                s.append(self.emit_rest(b, bound).as_str());
                s.append("]");
                s
            },
        }
    }

    /// The text of the conjuncts of a list that follow the first.
    pub fn emit_rest(&self, e: ExprId, bound: Sort) -> (s: String)
        requires
            self.interner.wf(),
            names_known_spec(self.interner@, self.builder@.names.len(), e),
        ensures
            s@ == emit_rest_spec(self.interner@, self.builder@.names, bound, e),
        decreases e, 1nat,
    {
        assert(self.interner@[e as int].children_below(e as nat));
        match self.interner.get(e) {
            ExprNode::Nil => String::new(),
            ExprNode::Cons(a, b) => {
                let mut s = String::from_str("; ");
                s.append(self.emit_predicate(a, bound).as_str());
                s.append(self.emit_rest(b, bound).as_str());
                s
            },
            _ => {
                let mut s = String::from_str("; ");
                s.append(self.emit_predicate(e, bound).as_str());
                s
            },
        }
    }

    /// The text of an expression in parentheses.
    pub fn emit_paren(&self, e: ExprId, bound: Sort) -> (s: String)
        requires
            self.interner.wf(),
            names_known_spec(self.interner@, self.builder@.names.len(), e),
        ensures
            s@ == emit_paren_spec(self.interner@, self.builder@.names, bound, e),
    {
        match self.interner.get(e) {
            ExprNode::Hole(_, _) | ExprNode::UnaryOp(_, _) | ExprNode::BinaryOp(_, _, _) => self.emit_predicate(
                e,
                bound,
            ),
            _ => {
                let mut s = String::from_str("(");
                s.append(self.emit_predicate(e, bound).as_str());
                s.append(")");
                s
            },
        }
    }

    /// The text of a node of the tree.
    pub fn emit_node(&self, i: usize) -> (s: String)
        requires
            self.wf(),
            i < self.builder@.nodes.len(),
        ensures
            s@ == emit_node_spec(self.interner@, self.builder@, i as int),
        decreases self.builder@.nodes.len() - i, 1int, 0int,
    {
        let n = self.builder.len();
        let node: Node = self.builder.node(i);
        assert(node_writable_spec(
            self.interner@,
            self.builder@.names.len(),
            self.builder@.nodes[i as int].kind,
        ));
        match node.kind {
            NodeKind::Head(p) => {
                let mut s = String::from_str("(");
                s.append(self.emit_paren(p, Sort::Int).as_str());
                s.append(")");
                s
            },
            NodeKind::Scope => {
                let mut s = String::from_str("(and");
                s.append(self.emit_children(i, i + 1).as_str());
                s.append(")");
                s
            },
            NodeKind::ForAll(x, sort, p) => {
                let mut s = String::from_str("(forall ((");
                s.append(Self::emit_variable(x).as_str());
                s.append(" ");
                s.append(Self::emit_sort(sort));
                s.append(") ");
                s.append(self.emit_paren(p, Sort::Int).as_str());
                s.append(") (and");
                s.append(self.emit_children(i, i + 1).as_str());
                s.append("))");
                s
            },
            NodeKind::Guard(p) => {
                let mut s = String::from_str("(forall ((_ int) ");
                s.append(self.emit_paren(p, Sort::Int).as_str());
                s.append(") (and");
                s.append(self.emit_children(i, i + 1).as_str());
                s.append("))");
                s
            },
        }
    }

    /// The text of the nodes from `j` on that the scope `i` holds.
    pub fn emit_children(&self, i: usize, j: usize) -> (s: String)
        requires
            self.wf(),
            i < j <= self.builder@.nodes.len(),
        ensures
            s@ == emit_children_spec(self.interner@, self.builder@, i as int, j as int),
        decreases self.builder@.nodes.len() - i, 0int, self.builder@.nodes.len() - j,
    {
        if j < self.builder.len() {
            let mut s = if self.builder.node(j).parent == i {
                let mut s = String::from_str(" ");
                s.append(self.emit_node(j).as_str());
                s
            } else {
                String::new()
            };
            s.append(self.emit_children(i, j + 1).as_str());
            s
        } else {
            String::new()
        }
    }

    /// The declarations of the holes from `k` on.
    pub fn emit_holes(&self, k: usize) -> (s: String)
        ensures
            s@ == emit_holes_spec(self.builder@.holes, k as int),
        decreases self.builder@.holes.len() - k,
    {
        if k < self.builder.num_holes() {
            let mut s = String::from_str("(var ");
            s.append(Self::emit_hole(k).as_str());
            s.append(" ((");
            s.append(Self::emit_sort(self.builder.sort_of_hole(k)));
            s.append(")))\n");
            s.append(self.emit_holes(k + 1).as_str());
            s
        } else {
            String::new()
        }
    }

    /// The query that the tree stands for.
    pub fn to_fixpoint(&self) -> (s: String)
        requires
            self.wf(),
        ensures
            s@ == to_fixpoint_spec(self.interner@, self.builder@),
    {
        let mut s = self.emit_holes(0);
        s.append("(constraint ");
        s.append(self.emit_node(0).as_str());
        s.append(")\n");
        s
    }
}


impl ConstraintBuilder {
    /// The query that the tree stands for, in the language of the solver.
    /// Every node of the tree must be one that can be written.
    pub fn to_fixpoint(&self, interner: &Interner) -> (s: String)
        requires
            interner.wf(),
            self.wf(),
            tree_writable_spec(interner@, self@),
        ensures
            s@ == to_fixpoint_spec(interner@, self@),
    {
        Emitter::new(interner, self).to_fixpoint()
    }

    /// The query that the tree stands for, if every node of the tree can
    /// be written.
    pub fn try_to_fixpoint(&self, interner: &Interner) -> (r: Option<String>)
        requires
            interner.wf(),
            self.wf(),
        ensures
            match r {
                Some(s) => tree_writable_spec(interner@, self@) && s@ == to_fixpoint_spec(interner@, self@),
                None => !tree_writable_spec(interner@, self@),
            },
    {
        let emitter = Emitter::new(interner, self);
        if emitter.writable() {
            Some(emitter.to_fixpoint())
        } else {
            None
        }
    }
}

} // verus!
