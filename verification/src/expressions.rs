//! Expressions of the language.
use vstd::prelude::*;

use crate::tokens::{Literal, LiteralView, Token, TokenView};

verus! {

/// An expression, as the parser builds it.
#[derive(Debug)]
pub enum Expr {
    Literal(Literal),
    /// left, operator, right
    Logical(Box<Expr>, Token, Box<Expr>),
    /// name, value
    Assign(Token, Box<Expr>),
    /// operator, right
    Unary(Token, Box<Expr>),
    /// left, operator, right
    Binary(Box<Expr>, Token, Box<Expr>),
    /// callee, closing parenthesis, arguments
    Call(Box<Expr>, Token, Vec<Expr>),
    Grouping(Box<Expr>),
    /// name
    Variable(Token),
}

/// The mathematical value of an [`Expr`].
pub enum ExprView {
    Literal(LiteralView),
    Logical(Box<ExprView>, TokenView, Box<ExprView>),
    Assign(TokenView, Box<ExprView>),
    Unary(TokenView, Box<ExprView>),
    Binary(Box<ExprView>, TokenView, Box<ExprView>),
    Call(Box<ExprView>, TokenView, Seq<ExprView>),
    Grouping(Box<ExprView>),
    Variable(TokenView),
}

/// The view of an expression.
pub open spec fn expr_view(e: Expr) -> ExprView
    decreases e,
{
    match e {
        Expr::Literal(l) => ExprView::Literal(l@),
        Expr::Logical(l, op, r) => ExprView::Logical(
            Box::new(expr_view(*l)),
            op@,
            Box::new(expr_view(*r)),
        ),
        Expr::Assign(n, v) => ExprView::Assign(n@, Box::new(expr_view(*v))),
        Expr::Unary(op, r) => ExprView::Unary(op@, Box::new(expr_view(*r))),
        Expr::Binary(l, op, r) => ExprView::Binary(
            Box::new(expr_view(*l)),
            op@,
            Box::new(expr_view(*r)),
        ),
        Expr::Call(c, p, args) => ExprView::Call(Box::new(expr_view(*c)), p@, exprs_view(args@)),
        Expr::Grouping(g) => ExprView::Grouping(Box::new(expr_view(*g))),
        Expr::Variable(n) => ExprView::Variable(n@),
    }
}

/// The views of a sequence of expressions.
pub open spec fn exprs_view(s: Seq<Expr>) -> Seq<ExprView>
    decreases s,
{
    if s.len() == 0 {
        Seq::empty()
    } else {
        exprs_view(s.drop_last()).push(expr_view(s.last()))
    }
}

pub proof fn lemma_exprs_view(s: Seq<Expr>)
    ensures
        exprs_view(s).len() == s.len(),
        forall|i: int| 0 <= i < s.len() ==> #[trigger] exprs_view(s)[i] == expr_view(s[i]),
    decreases s.len(),
{
    if s.len() > 0 {
        lemma_exprs_view(s.drop_last());
    }
}

pub proof fn lemma_exprs_view_push(s: Seq<Expr>, e: Expr)
    ensures
        exprs_view(s.push(e)) == exprs_view(s).push(expr_view(e)),
{
    assert(s.push(e).drop_last() =~= s);
}

impl View for Expr {
    type V = ExprView;

    open spec fn view(&self) -> ExprView {
        expr_view(*self)
    }
}

impl Expr {
    /// A copy of this expression.
    pub fn duplicate(&self) -> (r: Expr)
        ensures
            r@ == self@,
        decreases self,
    {
        match self {
            Expr::Literal(l) => Expr::Literal(l.duplicate()),
            Expr::Logical(l, op, r) => Expr::Logical(
                Box::new(l.duplicate()),
                op.duplicate(),
                Box::new(r.duplicate()),
            ),
            Expr::Assign(n, v) => Expr::Assign(n.duplicate(), Box::new(v.duplicate())),
            Expr::Unary(op, r) => Expr::Unary(op.duplicate(), Box::new(r.duplicate())),
            Expr::Binary(l, op, r) => Expr::Binary(
                Box::new(l.duplicate()),
                op.duplicate(),
                Box::new(r.duplicate()),
            ),
            Expr::Call(c, p, args) => Expr::Call(
                Box::new(c.duplicate()),
                p.duplicate(),
                duplicate_exprs(args),
            ),
            Expr::Grouping(g) => Expr::Grouping(Box::new(g.duplicate())),
            Expr::Variable(n) => Expr::Variable(n.duplicate()),
        }
    }
}

/// Copies of the expressions in `args`, in order.
pub fn duplicate_exprs(args: &Vec<Expr>) -> (r: Vec<Expr>)
    ensures
        exprs_view(r@) == exprs_view(args@),
    decreases args,
{
    let mut copies: Vec<Expr> = Vec::new();
    let mut i: usize = 0;
    while i < args.len()
        invariant
            i <= args.len(),
            exprs_view(copies@) == exprs_view(args@.take(i as int)),
        decreases args.len() - i,
    {
        proof {
            vstd::std_specs::vec::axiom_vec_index_decreases(*args, i as int);
        }
        let a = args[i].duplicate();
        proof {
            lemma_exprs_view_push(copies@, a);
            lemma_exprs_view_push(args@.take(i as int), args@[i as int]);
            assert(args@.take(i as int).push(args@[i as int]) =~= args@.take(i + 1));
        }
        copies.push(a);
        i = i + 1;
    }
    assert(args@.take(i as int) =~= args@);
    copies
}

} // verus!
