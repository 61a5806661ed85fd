//! Writing an expression in operator-first, parenthesised form, as the
//! interpreter shows parsed programs. How a single token and a literal are
//! written is supplied by the caller as a [`LeafFormat`].

use vstd::prelude::*;
use crate::token::{Token, TokenView, Literal, LiteralView};
use crate::expression::{Expr, ExprView, exprs_view, lemma_exprs_view_index, lemma_exprs_view_len};
use crate::semantics::{expr_size, exprs_size, lemma_exprs_size};

verus! {

/// The text of a token and of a literal.
pub struct LeafText {
    pub token: spec_fn(TokenView) -> Seq<char>,
    pub literal: spec_fn(LiteralView) -> Seq<char>,
}

/// How tokens and literals are written.
pub struct LeafFormat<T, L> {
    pub token: T,
    pub literal: L,
}

impl<T: Fn(&Token) -> String, L: Fn(&Literal) -> String> LeafFormat<T, L> {
    /// The two functions can be called on anything, and write `text`.
    pub open spec fn implements(&self, text: LeafText) -> bool {
        &&& forall|t: &Token| #[trigger] self.token.requires((t,))
        &&& forall|l: &Literal| #[trigger] self.literal.requires((l,))
        &&& forall|t: &Token, r: String| #[trigger] self.token.ensures((t,), r) ==> r@ == (text.token)(t@)
        &&& forall|l: &Literal, r: String| #[trigger] self.literal.ensures((l,), r) ==> r@ == (text.literal)(l@)
    }

    /// The texts the functions write (when they write functions of their
    /// arguments).
    pub open spec fn text(&self) -> LeafText {
        choose|text: LeafText| self.implements(text)
    }
}

/// The operator-first, parenthesised form of an expression.
pub open spec fn prefix_text(e: ExprView, text: LeafText) -> Seq<char>
    decreases e, 0int,
{
    match e {
        ExprView::Assign(t, v) => "(Assign "@ + (text.token)(t) + ", "@ + prefix_text(*v, text) + ")"@,
        ExprView::Binary(l, t, r) => "("@ + (text.token)(t) + " "@ + prefix_text(*l, text) + " "@
            + prefix_text(*r, text) + ")"@,
        ExprView::Call(c, t, args) => "(Call "@ + prefix_text(*c, text) + " "@ + (text.token)(t) + " "@
            + "["@ + joined_text(args, text) + "]"@ + ")"@,
        ExprView::Literal(l) => (text.literal)(l),
        ExprView::Logical(l, t, r) => "("@ + (text.token)(t) + " "@ + prefix_text(*l, text) + ", "@
            + prefix_text(*r, text) + ")"@,
        ExprView::Unary(t, v) => "("@ + (text.token)(t) + " "@ + prefix_text(*v, text) + ")"@,
        ExprView::Variable(t) => (text.token)(t),
        ExprView::Grouping(v) => "("@ + prefix_text(*v, text) + ")"@,
        ExprView::Empty => "()"@,
    }
}

/// The forms of the expressions, separated by `", "`.
pub open spec fn joined_text(s: Seq<ExprView>, text: LeafText) -> Seq<char>
    decreases s, 1int,
{
    if s.len() == 0 {
        Seq::empty()
    } else if s.len() == 1 {
        prefix_text(s[0], text)
    } else {
        joined_text(s.drop_last(), text) + ", "@ + prefix_text(s.last(), text)
    }
}

fn append_str(s: &mut String, t: &str)
    ensures
        final(s)@ == old(s)@ + t@,
{
    s.append(t);
}

fn write_prefix<T: Fn(&Token) -> String, L: Fn(&Literal) -> String>(
    e: &Expr,
    leaves: &LeafFormat<T, L>,
    out: &mut String,
    Ghost(text): Ghost<LeafText>,
)
    requires
        leaves.implements(text),
    ensures
        final(out)@ == old(out)@ + prefix_text(e@, text),
    decreases expr_size(e@), 1int,
{
    let ghost before = out@;
    match e {
        Expr::Assign(t, v) => {
            append_str(out, "(Assign ");
            let tt = (leaves.token)(t);
            append_str(out, tt.as_str());
            append_str(out, ", ");
            write_prefix(v, leaves, out, Ghost(text));
            append_str(out, ")");
            assert(out@ =~= before + prefix_text(e@, text));
        },
        Expr::Binary(l, t, r) => {
            append_str(out, "(");
            let tt = (leaves.token)(t);
            append_str(out, tt.as_str());
            append_str(out, " ");
            write_prefix(l, leaves, out, Ghost(text));
            append_str(out, " ");
            write_prefix(r, leaves, out, Ghost(text));
            append_str(out, ")");
            assert(out@ =~= before + prefix_text(e@, text));
        },
        Expr::Call(c, t, args) => {
            append_str(out, "(Call ");
            write_prefix(c, leaves, out, Ghost(text));
            append_str(out, " ");
            let tt = (leaves.token)(t);
            append_str(out, tt.as_str());
            append_str(out, " [");
            let ghost mid = out@;
            write_joined(e, args, leaves, out, Ghost(text));
            append_str(out, "])");
            assert(" ["@ =~= " "@ + "["@) by {
                reveal_strlit(" [");
                reveal_strlit(" ");
                reveal_strlit("[");
            }
            assert("])"@ =~= "]"@ + ")"@) by {
                reveal_strlit("])");
                reveal_strlit("]");
                reveal_strlit(")");
            }
            assert(out@ =~= before + prefix_text(e@, text));
        },
        Expr::Literal(l) => {
            let lt = (leaves.literal)(l);
            append_str(out, lt.as_str());
        },
        Expr::Logical(l, t, r) => {
            append_str(out, "(");
            let tt = (leaves.token)(t);
            append_str(out, tt.as_str());
            append_str(out, " ");
            write_prefix(l, leaves, out, Ghost(text));
            append_str(out, ", ");
            write_prefix(r, leaves, out, Ghost(text));
            append_str(out, ")");
            assert(out@ =~= before + prefix_text(e@, text));
        },
        Expr::Unary(t, v) => {
            append_str(out, "(");
            let tt = (leaves.token)(t);
            append_str(out, tt.as_str());
            append_str(out, " ");
            write_prefix(v, leaves, out, Ghost(text));
            append_str(out, ")");
            assert(out@ =~= before + prefix_text(e@, text));
        },
        Expr::Variable(t) => {
            let tt = (leaves.token)(t);
            append_str(out, tt.as_str());
        },
        Expr::Grouping(v) => {
            append_str(out, "(");
            write_prefix(v, leaves, out, Ghost(text));
            append_str(out, ")");
            assert(out@ =~= before + prefix_text(e@, text));
        },
        Expr::Empty => {
            append_str(out, "()");
        },
    }
}

/// Writes the arguments of the call `e`, separated by `", "`.
fn write_joined<T: Fn(&Token) -> String, L: Fn(&Literal) -> String>(
    e: &Expr,
    args: &Vec<Box<Expr>>,
    leaves: &LeafFormat<T, L>,
    out: &mut String,
    Ghost(text): Ghost<LeafText>,
)
    requires
        leaves.implements(text),
        e@ matches ExprView::Call(_, _, a) && a == exprs_view(args@),
    ensures
        final(out)@ == old(out)@ + joined_text(exprs_view(args@), text),
    decreases expr_size(e@), 0int,
{
    let ghost s = exprs_view(args@);
    let ghost before = out@;
    proof { lemma_exprs_view_len(args@); }
    let mut i: usize = 0;
    assert(s.take(0) =~= Seq::<ExprView>::empty());
    while i < args.len()
        invariant
            leaves.implements(text),
            e@ matches ExprView::Call(_, _, a) && a == s,
            s == exprs_view(args@),
            s.len() == args@.len(),
            i <= args@.len(),
            out@ == before + joined_text(s.take(i as int), text),
        decreases args.len() - i,
    {
        proof {
            lemma_exprs_view_index(args@, i as int);
            lemma_exprs_size(s, i as int);
        }
        let ghost pre = out@;
        if i > 0 {
            append_str(out, ", ");
        }
        write_prefix(&args[i], leaves, out, Ghost(text));
        proof {
            let t1 = s.take(i + 1);
            assert(t1.drop_last() =~= s.take(i as int));
            assert(t1.last() == s[i as int]);
            if i == 0 {
                assert(t1[0] == s[0]);
                assert(out@ =~= before + joined_text(t1, text));
            } else {
                assert(out@ =~= before + joined_text(t1, text));
            }
        }
        i = i + 1;
    }
    assert(s.take(i as int) =~= s);
}

impl Expr {
    /// The expression in operator-first, parenthesised form, with tokens
    /// and literals written by `leaves`.
    pub fn prefix_form<T: Fn(&Token) -> String, L: Fn(&Literal) -> String>(&self, leaves: &LeafFormat<T, L>) -> (s: String)
        requires
            exists|text: LeafText| leaves.implements(text),
        ensures
            s@ == prefix_text(self@, leaves.text()),
    {
        let mut out = String::new();
        write_prefix(self, leaves, &mut out, Ghost(leaves.text()));
        assert(out@ =~= Seq::<char>::empty() + prefix_text(self@, leaves.text()));
        out
    }
}

} // verus!
