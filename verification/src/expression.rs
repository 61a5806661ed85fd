//! Expressions of the Lox language.

use vstd::prelude::*;
use crate::token::{Token, TokenView, Literal, LiteralView};

verus! {

#[derive(Debug, PartialEq, Eq)]
pub enum Expr {
    Assign(Token, Box<Expr>),
    Binary(Box<Expr>, Token, Box<Expr>),
    Call(Box<Expr>, Token, Vec<Box<Expr>>),
    Literal(Literal),
    Logical(Box<Expr>, Token, Box<Expr>),
    Unary(Token, Box<Expr>),
    Variable(Token),
    Grouping(Box<Expr>),
    Empty,
}

/// The mathematical value of an [`Expr`].
pub enum ExprView {
    Assign(TokenView, Box<ExprView>),
    Binary(Box<ExprView>, TokenView, Box<ExprView>),
    Call(Box<ExprView>, TokenView, Seq<ExprView>),
    Literal(LiteralView),
    Logical(Box<ExprView>, TokenView, Box<ExprView>),
    Unary(TokenView, Box<ExprView>),
    Variable(TokenView),
    Grouping(Box<ExprView>),
    Empty,
}

pub open spec fn expr_view(e: Expr) -> ExprView
    decreases e, 0int,
{
    match e {
        Expr::Assign(t, v) => ExprView::Assign(t@, Box::new(expr_view(*v))),
        Expr::Binary(l, t, r) => ExprView::Binary(Box::new(expr_view(*l)), t@, Box::new(expr_view(*r))),
        Expr::Call(c, t, args) => ExprView::Call(Box::new(expr_view(*c)), t@, exprs_view(args@)),
        Expr::Literal(l) => ExprView::Literal(l@),
        Expr::Logical(l, t, r) => ExprView::Logical(Box::new(expr_view(*l)), t@, Box::new(expr_view(*r))),
        Expr::Unary(t, v) => ExprView::Unary(t@, Box::new(expr_view(*v))),
        Expr::Variable(t) => ExprView::Variable(t@),
        Expr::Grouping(v) => ExprView::Grouping(Box::new(expr_view(*v))),
        Expr::Empty => ExprView::Empty,
    }
}

pub open spec fn exprs_view(s: Seq<Box<Expr>>) -> Seq<ExprView>
    decreases s, 1int,
{
    if s.len() == 0 {
        Seq::empty()
    } else {
        exprs_view(s.drop_last()).push(expr_view(*s.last()))
    }
}

pub proof fn lemma_exprs_view_push(s: Seq<Box<Expr>>, e: Box<Expr>)
    ensures
        exprs_view(s.push(e)) == exprs_view(s).push(expr_view(*e)),
{
    assert(s.push(e).drop_last() =~= s);
}

pub proof fn lemma_exprs_view_len(s: Seq<Box<Expr>>)
    ensures
        exprs_view(s).len() == s.len(),
    decreases s.len(),
{
    if s.len() > 0 {
        lemma_exprs_view_len(s.drop_last());
    }
}

pub proof fn lemma_exprs_view_index(s: Seq<Box<Expr>>, i: int)
    requires
        0 <= i < s.len(),
    ensures
        exprs_view(s)[i] == expr_view(*s[i]),
    decreases s.len(),
{
    lemma_exprs_view_len(s.drop_last());
    if i < s.len() - 1 {
        lemma_exprs_view_index(s.drop_last(), i);
    }
}

impl View for Expr {
    type V = ExprView;

    open spec fn view(&self) -> ExprView {
        expr_view(*self)
    }
}

} // verus!
