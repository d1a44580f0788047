//! The abstract syntax tree of ExprLang.
//!
//! Each node corresponds to a syntactic construct of the language. A number
//! literal keeps its source text.

use vstd::prelude::*;

verus! {

/// Binary operators.
#[derive(Debug, Clone, Copy, PartialEq, Eq, Structural)]
pub enum Op {
    Add,
    Sub,
    Mul,
    Div,
    Less,
    LessEqual,
    Greater,
    GreaterEqual,
    Equal,
    NotEqual,
    And,
    Or,
}

/// Unary operators.
#[derive(Debug, Clone, Copy, PartialEq, Eq, Structural)]
pub enum UnaryOp {
    /// Numeric negation: `-expr`
    Neg,
    /// Logical not: `!expr`
    Not,
}

/// An expression node.
#[derive(Debug, PartialEq)]
pub enum Expr {
    /// A number literal, as written (such as `3`, `2.5`, `.5`, `2e5`).
    Number(String),
    /// A string literal (escapes already resolved).
    String(String),
    /// An array literal.
    Array(Vec<Expr>),
    /// Indexing: `array[index]`
    Index { array: Box<Expr>, index: Box<Expr> },
    /// Slicing: `array[start:end]`
    Slice { array: Box<Expr>, start: Option<Box<Expr>>, end: Option<Box<Expr>> },
    /// A variable reference.
    Variable(String),
    /// A binary operation.
    Binary { op: Op, left: Box<Expr>, right: Box<Expr> },
    /// A unary operation.
    Unary { op: UnaryOp, expr: Box<Expr> },
    /// A function call: `name(args...)`
    Call { name: String, args: Vec<Expr> },
    /// An assignment: `name = expr`
    Assign { name: String, expr: Box<Expr> },
    /// Expressions separated by semicolons.
    Sequence(Vec<Expr>),
    /// `if c then e [elif c then e]* [else e]`
    If { branches: Vec<(Box<Expr>, Box<Expr>)>, else_branch: Option<Box<Expr>> },
    /// `while cond do body`
    While { cond: Box<Expr>, body: Box<Expr> },
    /// `for var in start..end [step s] do body`
    For {
        var: String,
        start: Box<Expr>,
        end: Box<Expr>,
        step: Option<Box<Expr>>,
        body: Box<Expr>,
    },
    /// `break`
    Break,
    /// `continue`
    Continue,
    /// `fn name(params) = body`
    FunctionDef { name: String, params: Vec<String>, body: Box<Expr> },
}

/// The mathematical model of an [`Expr`]: text as `Seq<char>`, lists as `Seq`.
pub enum ExprView {
    Number(Seq<char>),
    Str(Seq<char>),
    Array(Seq<ExprView>),
    Index { array: Box<ExprView>, index: Box<ExprView> },
    Slice { array: Box<ExprView>, start: Option<Box<ExprView>>, end: Option<Box<ExprView>> },
    Variable(Seq<char>),
    Binary { op: Op, left: Box<ExprView>, right: Box<ExprView> },
    Unary { op: UnaryOp, expr: Box<ExprView> },
    Call { name: Seq<char>, args: Seq<ExprView> },
    Assign { name: Seq<char>, expr: Box<ExprView> },
    Sequence(Seq<ExprView>),
    If { branches: Seq<(ExprView, ExprView)>, else_branch: Option<Box<ExprView>> },
    While { cond: Box<ExprView>, body: Box<ExprView> },
    For {
        var: Seq<char>,
        start: Box<ExprView>,
        end: Box<ExprView>,
        step: Option<Box<ExprView>>,
        body: Box<ExprView>,
    },
    Break,
    Continue,
    FunctionDef { name: Seq<char>, params: Seq<Seq<char>>, body: Box<ExprView> },
}

/// The model of an expression.
pub open spec fn expr_view(e: Expr) -> ExprView
    decreases e,
{
    match e {
        Expr::Number(s) => ExprView::Number(s@),
        Expr::String(s) => ExprView::Str(s@),
        Expr::Array(v) => ExprView::Array(exprs_view(v@)),
        Expr::Index { array, index } => ExprView::Index {
            array: Box::new(expr_view(*array)),
            index: Box::new(expr_view(*index)),
        },
        Expr::Slice { array, start, end } => ExprView::Slice {
            array: Box::new(expr_view(*array)),
            start: match start {
                Some(b) => Some(Box::new(expr_view(*b))),
                None => None,
            },
            end: match end {
                Some(b) => Some(Box::new(expr_view(*b))),
                None => None,
            },
        },
        Expr::Variable(s) => ExprView::Variable(s@),
        Expr::Binary { op, left, right } => ExprView::Binary {
            op,
            left: Box::new(expr_view(*left)),
            right: Box::new(expr_view(*right)),
        },
        Expr::Unary { op, expr } => ExprView::Unary { op, expr: Box::new(expr_view(*expr)) },
        Expr::Call { name, args } => ExprView::Call { name: name@, args: exprs_view(args@) },
        Expr::Assign { name, expr } => ExprView::Assign {
            name: name@,
            expr: Box::new(expr_view(*expr)),
        },
        Expr::Sequence(v) => ExprView::Sequence(exprs_view(v@)),
        Expr::If { branches, else_branch } => ExprView::If {
            branches: branches_view(branches@),
            else_branch: match else_branch {
                Some(b) => Some(Box::new(expr_view(*b))),
                None => None,
            },
        },
        Expr::While { cond, body } => ExprView::While {
            cond: Box::new(expr_view(*cond)),
            body: Box::new(expr_view(*body)),
        },
        Expr::For { var, start, end, step, body } => ExprView::For {
            var: var@,
            start: Box::new(expr_view(*start)),
            end: Box::new(expr_view(*end)),
            step: match step {
                Some(b) => Some(Box::new(expr_view(*b))),
                None => None,
            },
            body: Box::new(expr_view(*body)),
        },
        Expr::Break => ExprView::Break,
        Expr::Continue => ExprView::Continue,
        Expr::FunctionDef { name, params, body } => ExprView::FunctionDef {
            name: name@,
            params: names_view(params@),
            body: Box::new(expr_view(*body)),
        },
    }
}

/// The models of a list of expressions.
pub open spec fn exprs_view(s: Seq<Expr>) -> Seq<ExprView>
    decreases s,
{
    if s.len() == 0 {
        Seq::empty()
    } else {
        exprs_view(s.subrange(0, s.len() - 1)).push(expr_view(s[s.len() - 1]))
    }
}

/// The model of an optional sub-expression.
pub open spec fn opt_view(o: Option<Box<Expr>>) -> Option<Box<ExprView>> {
    match o {
        Some(e) => Some(Box::new(expr_view(*e))),
        None => None,
    }
}

/// The models of `if` branches.
pub open spec fn branches_view(s: Seq<(Box<Expr>, Box<Expr>)>) -> Seq<(ExprView, ExprView)>
    decreases s,
{
    if s.len() == 0 {
        Seq::empty()
    } else {
        branches_view(s.subrange(0, s.len() - 1)).push(
            (expr_view(*s[s.len() - 1].0), expr_view(*s[s.len() - 1].1)),
        )
    }
}

/// The models of a list of names.
pub open spec fn names_view(s: Seq<String>) -> Seq<Seq<char>>
    decreases s.len(),
{
    if s.len() == 0 {
        Seq::empty()
    } else {
        names_view(s.drop_last()).push(s.last()@)
    }
}

pub proof fn lemma_exprs_view(s: Seq<Expr>)
    ensures
        exprs_view(s).len() == s.len(),
        forall|i: int| 0 <= i < s.len() ==> #[trigger] exprs_view(s)[i] == expr_view(s[i]),
    decreases s.len(),
{
    if s.len() > 0 {
        lemma_exprs_view(s.subrange(0, s.len() - 1));
    }
}

pub proof fn lemma_exprs_view_empty()
    ensures
        exprs_view(Seq::empty()) == Seq::<ExprView>::empty(),
{
}

pub proof fn lemma_exprs_view_push(s: Seq<Expr>, e: Expr)
    ensures
        exprs_view(s.push(e)) == exprs_view(s).push(expr_view(e)),
{
    assert(s.push(e).subrange(0, s.len() as int) == s);
}

pub proof fn lemma_branches_view_push(s: Seq<(Box<Expr>, Box<Expr>)>, b: (Box<Expr>, Box<Expr>))
    ensures
        branches_view(s.push(b)) == branches_view(s).push((expr_view(*b.0), expr_view(*b.1))),
{
    assert(s.push(b).subrange(0, s.len() as int) == s);
}

pub proof fn lemma_names_view_push(s: Seq<String>, n: String)
    ensures
        names_view(s.push(n)) == names_view(s).push(n@),
{
    assert(s.push(n).drop_last() == s);
}

impl View for Expr {
    type V = ExprView;

    open spec fn view(&self) -> ExprView {
        expr_view(*self)
    }
}


/// A copy of `e`.
fn copy_expr(e: &Expr) -> (r: Expr)
    ensures
        r@ == e@,
    decreases e,
{
    match e {
        Expr::Number(s) => Expr::Number(s.clone()),
        Expr::String(s) => Expr::String(s.clone()),
        Expr::Array(v) => Expr::Array(copy_exprs(v)),
        Expr::Index { array, index } => Expr::Index {
            array: Box::new(copy_expr(array)),
            index: Box::new(copy_expr(index)),
        },
        Expr::Slice { array, start, end } => Expr::Slice {
            array: Box::new(copy_expr(array)),
            start: copy_opt(start),
            end: copy_opt(end),
        },
        Expr::Variable(s) => Expr::Variable(s.clone()),
        Expr::Binary { op, left, right } => Expr::Binary {
            op: *op,
            left: Box::new(copy_expr(left)),
            right: Box::new(copy_expr(right)),
        },
        Expr::Unary { op, expr } => Expr::Unary { op: *op, expr: Box::new(copy_expr(expr)) },
        Expr::Call { name, args } => Expr::Call { name: name.clone(), args: copy_exprs(args) },
        Expr::Assign { name, expr } => Expr::Assign {
            name: name.clone(),
            expr: Box::new(copy_expr(expr)),
        },
        Expr::Sequence(v) => Expr::Sequence(copy_exprs(v)),
        Expr::If { branches, else_branch } => Expr::If {
            branches: copy_branches(branches),
            else_branch: copy_opt(else_branch),
        },
        Expr::While { cond, body } => Expr::While {
            cond: Box::new(copy_expr(cond)),
            body: Box::new(copy_expr(body)),
        },
        Expr::For { var, start, end, step, body } => Expr::For {
            var: var.clone(),
            start: Box::new(copy_expr(start)),
            end: Box::new(copy_expr(end)),
            step: copy_opt(step),
            body: Box::new(copy_expr(body)),
        },
        Expr::Break => Expr::Break,
        Expr::Continue => Expr::Continue,
        Expr::FunctionDef { name, params, body } => Expr::FunctionDef {
            name: name.clone(),
            params: copy_names(params),
            body: Box::new(copy_expr(body)),
        },
    }
}

/// A copy of an optional sub-expression.
fn copy_opt(o: &Option<Box<Expr>>) -> (r: Option<Box<Expr>>)
    ensures
        opt_view(r) == opt_view(*o),
    decreases o,
{
    match o {
        Some(b) => Some(Box::new(copy_expr(b))),
        None => None,
    }
}

/// A copy of a list of expressions.
fn copy_exprs(v: &Vec<Expr>) -> (r: Vec<Expr>)
    ensures
        exprs_view(r@) == exprs_view(v@),
    decreases v,
{
    let mut r: Vec<Expr> = Vec::new();
    let n = v.len();
    for i in 0..n
        invariant
            n == v@.len(),
            exprs_view(r@) == exprs_view(v@.take(i as int)),
    {
        let ghost before = r@;
        let e = copy_expr(&v[i]);
        proof {
            lemma_exprs_view_push(before, e);
            lemma_exprs_view_push(v@.take(i as int), v@[i as int]);
            assert(v@.take(i as int).push(v@[i as int]) == v@.take(i + 1));
        }
        r.push(e);
    }
    assert(v@.take(n as int) == v@);
    r
}

/// A copy of the branches of an `if`.
fn copy_branches(v: &Vec<(Box<Expr>, Box<Expr>)>) -> (r: Vec<(Box<Expr>, Box<Expr>)>)
    ensures
        branches_view(r@) == branches_view(v@),
    decreases v,
{
    let mut r: Vec<(Box<Expr>, Box<Expr>)> = Vec::new();
    let n = v.len();
    for i in 0..n
        invariant
            n == v@.len(),
            branches_view(r@) == branches_view(v@.take(i as int)),
    {
        let ghost before = r@;
        let c = copy_expr(&v[i].0);
        let t = copy_expr(&v[i].1);
        let b = (Box::new(c), Box::new(t));
        proof {
            lemma_branches_view_push(before, b);
            lemma_branches_view_push(v@.take(i as int), v@[i as int]);
            assert(v@.take(i as int).push(v@[i as int]) == v@.take(i + 1));
        }
        r.push(b);
    }
    assert(v@.take(n as int) == v@);
    r
}

/// A copy of a list of names.
fn copy_names(v: &Vec<String>) -> (r: Vec<String>)
    ensures
        names_view(r@) == names_view(v@),
{
    let mut r: Vec<String> = Vec::new();
    let n = v.len();
    for i in 0..n
        invariant
            n == v@.len(),
            names_view(r@) == names_view(v@.take(i as int)),
    {
        let ghost before = r@;
        let s = v[i].clone();
        proof {
            lemma_names_view_push(before, s);
            lemma_names_view_push(v@.take(i as int), v@[i as int]);
            assert(v@.take(i as int).push(v@[i as int]) == v@.take(i + 1));
        }
        r.push(s);
    }
    assert(v@.take(n as int) == v@);
    r
}

impl Clone for Expr {
    /// A deep copy, equal to `self` node for node.
    fn clone(&self) -> (r: Self)
        ensures
            r@ == self@,
    {
        copy_expr(self)
    }
}

} // verus!
