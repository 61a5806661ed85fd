//! Statements of the Lox language.

use vstd::prelude::*;
use crate::token::{Token, TokenView};
use crate::expression::{Expr, ExprView};
use crate::treewalk::scanner::tokens_view;

verus! {

#[derive(Debug, PartialEq, Eq)]
pub enum Stmt {
    Block(Vec<Box<Stmt>>),
    Expr(Box<Expr>),
    Print(Box<Expr>),
    Return(Token, Box<Expr>),
    Var(Token, Box<Expr>),
    If(Box<Expr>, Box<Stmt>, Box<Stmt>),
    While(Box<Expr>, Box<Stmt>),
    Function(Token, Vec<Token>, Vec<Box<Stmt>>),
    Break,
}

/// The mathematical value of a [`Stmt`].
pub enum StmtView {
    Block(Seq<StmtView>),
    Expr(ExprView),
    Print(ExprView),
    Return(TokenView, ExprView),
    Var(TokenView, ExprView),
    If(ExprView, Box<StmtView>, Box<StmtView>),
    While(ExprView, Box<StmtView>),
    Function(TokenView, Seq<TokenView>, Seq<StmtView>),
    Break,
}

pub open spec fn stmt_view(s: Stmt) -> StmtView
    decreases s, 0int,
{
    match s {
        Stmt::Block(b) => StmtView::Block(stmts_view(b@)),
        Stmt::Expr(e) => StmtView::Expr((*e)@),
        Stmt::Print(e) => StmtView::Print((*e)@),
        Stmt::Return(t, e) => StmtView::Return(t@, (*e)@),
        Stmt::Var(t, e) => StmtView::Var(t@, (*e)@),
        Stmt::If(c, t, e) => StmtView::If((*c)@, Box::new(stmt_view(*t)), Box::new(stmt_view(*e))),
        Stmt::While(c, b) => StmtView::While((*c)@, Box::new(stmt_view(*b))),
        Stmt::Function(n, ps, b) => StmtView::Function(n@, tokens_view(ps@), stmts_view(b@)),
        Stmt::Break => StmtView::Break,
    }
}

pub open spec fn stmts_view(s: Seq<Box<Stmt>>) -> Seq<StmtView>
    decreases s, 1int,
{
    if s.len() == 0 {
        Seq::empty()
    } else {
        stmts_view(s.drop_last()).push(stmt_view(*s.last()))
    }
}

pub proof fn lemma_stmts_view_push(s: Seq<Box<Stmt>>, e: Box<Stmt>)
    ensures
        stmts_view(s.push(e)) == stmts_view(s).push(stmt_view(*e)),
{
    assert(s.push(e).drop_last() =~= s);
}

pub proof fn lemma_stmts_view_len(s: Seq<Box<Stmt>>)
    ensures
        stmts_view(s).len() == s.len(),
    decreases s.len(),
{
    if s.len() > 0 {
        lemma_stmts_view_len(s.drop_last());
    }
}

pub proof fn lemma_stmts_view_index(s: Seq<Box<Stmt>>, i: int)
    requires
        0 <= i < s.len(),
    ensures
        stmts_view(s)[i] == stmt_view(*s[i]),
    decreases s.len(),
{
    lemma_stmts_view_len(s.drop_last());
    if i < s.len() - 1 {
        lemma_stmts_view_index(s.drop_last(), i);
    }
}

impl View for Stmt {
    type V = StmtView;

    open spec fn view(&self) -> StmtView {
        stmt_view(*self)
    }
}

} // verus!
