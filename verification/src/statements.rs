//! Statements of the language.
use vstd::prelude::*;

use crate::expressions::{Expr, ExprView};
use crate::tokens::{Token, TokenView};

verus! {

/// A statement, as the parser builds it.
#[derive(Debug)]
pub enum Stmt {
    Block(Vec<Stmt>),
    Expr(Expr),
    /// name, parameters, body
    Function(String, Vec<Token>, Vec<Stmt>),
    /// condition, then branch, else branch
    If(Expr, Box<Stmt>, Option<Box<Stmt>>),
    Print(Expr),
    /// keyword, value
    Return(Token, Option<Expr>),
    /// name, initializer
    Var(Token, Option<Expr>),
    /// condition, body
    While(Box<Expr>, Box<Stmt>),
}

/// The mathematical value of a [`Stmt`].
pub enum StmtView {
    Block(Seq<StmtView>),
    Expr(ExprView),
    Function(Seq<char>, Seq<TokenView>, Seq<StmtView>),
    If(ExprView, Box<StmtView>, Option<Box<StmtView>>),
    Print(ExprView),
    Return(TokenView, Option<ExprView>),
    Var(TokenView, Option<ExprView>),
    While(ExprView, Box<StmtView>),
}

/// The view of an optional expression.
pub open spec fn opt_expr_view(e: Option<Expr>) -> Option<ExprView> {
    match e {
        Some(e) => Some(e@),
        None => None,
    }
}

/// The views of a sequence of tokens.
pub open spec fn token_seq_view(ts: Seq<Token>) -> Seq<TokenView> {
    ts.map_values(|t: Token| t@)
}

/// The view of a statement.
pub open spec fn stmt_view(s: Stmt) -> StmtView
    decreases s,
{
    match s {
        Stmt::Block(b) => StmtView::Block(stmts_view(b@)),
        Stmt::Expr(e) => StmtView::Expr(e@),
        Stmt::Function(n, ps, b) => StmtView::Function(n@, token_seq_view(ps@), stmts_view(b@)),
        Stmt::If(c, t, e) => StmtView::If(
            c@,
            Box::new(stmt_view(*t)),
            match e {
                Some(e) => Some(Box::new(stmt_view(*e))),
                None => None,
            },
        ),
        Stmt::Print(e) => StmtView::Print(e@),
        Stmt::Return(k, v) => StmtView::Return(k@, opt_expr_view(v)),
        Stmt::Var(n, v) => StmtView::Var(n@, opt_expr_view(v)),
        Stmt::While(c, b) => StmtView::While((*c)@, Box::new(stmt_view(*b))),
    }
}

/// The views of a sequence of statements.
pub open spec fn stmts_view(s: Seq<Stmt>) -> Seq<StmtView>
    decreases s,
{
    if s.len() == 0 {
        Seq::empty()
    } else {
        stmts_view(s.drop_last()).push(stmt_view(s.last()))
    }
}

pub proof fn lemma_stmts_view(s: Seq<Stmt>)
    ensures
        stmts_view(s).len() == s.len(),
        forall|i: int| 0 <= i < s.len() ==> #[trigger] stmts_view(s)[i] == stmt_view(s[i]),
    decreases s.len(),
{
    if s.len() > 0 {
        lemma_stmts_view(s.drop_last());
    }
}

pub proof fn lemma_stmts_view_push(s: Seq<Stmt>, e: Stmt)
    ensures
        stmts_view(s.push(e)) == stmts_view(s).push(stmt_view(e)),
{
    assert(s.push(e).drop_last() =~= s);
}

impl View for Stmt {
    type V = StmtView;

    open spec fn view(&self) -> StmtView {
        stmt_view(*self)
    }
}

impl Stmt {
    /// An empty block.
    pub fn noop_block() -> (r: Self)
        ensures
            r@ == StmtView::Block(Seq::empty()),
    {
        let r = Stmt::Block(Vec::new());
        assert(stmts_view(Seq::<Stmt>::empty()) =~= Seq::empty());
        r
    }

    /// A copy of this statement.
    pub fn duplicate(&self) -> (r: Stmt)
        ensures
            r@ == self@,
        decreases self,
    {
        match self {
            Stmt::Block(b) => Stmt::Block(duplicate_stmts(b)),
            Stmt::Expr(e) => Stmt::Expr(e.duplicate()),
            Stmt::Function(n, ps, b) => Stmt::Function(n.clone(), duplicate_tokens(ps), duplicate_stmts(b)),
            Stmt::If(c, t, e) => {
                let e2 = match e {
                    Some(e) => Some(Box::new(e.duplicate())),
                    None => None,
                };
                Stmt::If(c.duplicate(), Box::new(t.duplicate()), e2)
            },
            Stmt::Print(e) => Stmt::Print(e.duplicate()),
            Stmt::Return(k, v) => Stmt::Return(k.duplicate(), duplicate_opt_expr(v)),
            Stmt::Var(n, v) => Stmt::Var(n.duplicate(), duplicate_opt_expr(v)),
            Stmt::While(c, b) => Stmt::While(Box::new(c.duplicate()), Box::new(b.duplicate())),
        }
    }
}

/// A copy of an optional expression.
pub fn duplicate_opt_expr(e: &Option<Expr>) -> (r: Option<Expr>)
    ensures
        opt_expr_view(r) == opt_expr_view(*e),
{
    match e {
        Some(e) => Some(e.duplicate()),
        None => None,
    }
}

/// Copies of the tokens in `ts`, in order.
pub fn duplicate_tokens(ts: &Vec<Token>) -> (r: Vec<Token>)
    ensures
        token_seq_view(r@) == token_seq_view(ts@),
{
    let mut copies: Vec<Token> = Vec::new();
    let mut i: usize = 0;
    while i < ts.len()
        invariant
            i <= ts.len(),
            copies.len() == i,
            forall|j: int| 0 <= j < i ==> #[trigger] copies@[j]@ == ts@[j]@,
        decreases ts.len() - i,
    {
        let t = ts[i].duplicate();
        copies.push(t);
        i = i + 1;
    }
    assert(token_seq_view(copies@) =~= token_seq_view(ts@));
    copies
}

/// Copies of the statements in `ss`, in order.
pub fn duplicate_stmts(ss: &Vec<Stmt>) -> (r: Vec<Stmt>)
    ensures
        stmts_view(r@) == stmts_view(ss@),
    decreases ss,
{
    let mut copies: Vec<Stmt> = Vec::new();
    let mut i: usize = 0;
    while i < ss.len()
        invariant
            i <= ss.len(),
            stmts_view(copies@) == stmts_view(ss@.take(i as int)),
        decreases ss.len() - i,
    {
        proof {
            vstd::std_specs::vec::axiom_vec_index_decreases(*ss, i as int);
        }
        let a = ss[i].duplicate();
        proof {
            lemma_stmts_view_push(copies@, a);
            lemma_stmts_view_push(ss@.take(i as int), ss@[i as int]);
            assert(ss@.take(i as int).push(ss@[i as int]) =~= ss@.take(i + 1));
        }
        copies.push(a);
        i = i + 1;
    }
    assert(ss@.take(i as int) =~= ss@);
    copies
}

} // verus!
