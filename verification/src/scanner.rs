//! The first scanner: punctuation and operators only. Every other
//! character, white space included, is reported as unexpected; all tokens
//! stand on line 1.

use vstd::prelude::*;
use crate::chars::{unstack, lemma_unstack_pop, stack_of, lemma_push_then_append};
use crate::token::{Token, TokenView, bare_token};
use crate::token::token_type::TokenType;
use crate::treewalk::scanner::{ScanError, next_char, is_two_char, tokens_view};

verus! {

pub struct Scanner {
    source: String,
    tokens: Vec<Token>,
}

/// The kind of token this scanner makes of `c`, given the character `next`
/// after it. Note that it maps `{` to `RightBrace` and `}` to `LeftBrace`.
pub open spec fn simple_token_type(c: char, next: char) -> Option<TokenType> {
    if c == '(' { Some(TokenType::LeftParen) }
    else if c == ')' { Some(TokenType::RightParen) }
    else if c == '{' { Some(TokenType::RightBrace) }
    else if c == '}' { Some(TokenType::LeftBrace) }
    else if c == ',' { Some(TokenType::Comma) }
    else if c == '.' { Some(TokenType::Dot) }
    else if c == '-' { Some(TokenType::Minus) }
    else if c == '+' { Some(TokenType::Plus) }
    else if c == ';' { Some(TokenType::Semicolon) }
    else if c == '*' { Some(TokenType::Star) }
    else if c == '!' { if next == '=' { Some(TokenType::BangEqual) } else { Some(TokenType::Bang) } }
    else if c == '=' { if next == '=' { Some(TokenType::EqualEqual) } else { Some(TokenType::Equal) } }
    else if c == '<' { if next == '=' { Some(TokenType::LessEqual) } else { Some(TokenType::Less) } }
    else if c == '>' { if next == '=' { Some(TokenType::GreaterEqual) } else { Some(TokenType::Greater) } }
    else { None }
}

/// Scanning `rest`: the tokens (all on line 1) and the unexpected characters.
pub open spec fn simple_scan_from(rest: Seq<char>) -> (Seq<TokenView>, Seq<ScanError>)
    decreases rest.len(),
{
    if rest.len() == 0 {
        (Seq::empty(), Seq::empty())
    } else {
        let c = rest[0];
        let after = rest.drop_first();
        let t = simple_token_type(c, next_char(after));
        let after2 = if t is Some && is_two_char(t->0) { after.drop_first() } else { after };
        let (ts, es) = simple_scan_from(after2);
        match t {
            Some(ty) => (seq![bare_token(ty, 1)] + ts, es),
            None => (ts, seq![ScanError { line: 1, character: c }] + es),
        }
    }
}

pub open spec fn simple_scan_source(source: Seq<char>) -> Seq<TokenView> {
    simple_scan_from(source).0.push(bare_token(TokenType::Eof, 1))
}

impl Scanner {
    pub fn new(source: &str) -> (s: Scanner)
        ensures
            s.source() == source@,
    {
        let source = String::from_str(source);
        let tokens = Vec::new();
        Scanner { source, tokens }
    }

    pub closed spec fn source(&self) -> Seq<char> {
        self.source@
    }

    /// The tokens of the source, ending with `Eof`; unexpected characters
    /// are skipped (see `scan_tokens_with_errors`).
    pub fn scan_tokens(&self) -> (tokens: Vec<Token>)
        ensures
            tokens_view(tokens@) == simple_scan_source(self.source()),
    {
        self.scan_tokens_with_errors().0
    }

    /// The tokens of the source and the unexpected characters.
    pub fn scan_tokens_with_errors(&self) -> (r: (Vec<Token>, Vec<ScanError>))
        ensures
            tokens_view(r.0@) == simple_scan_source(self.source()),
            r.1@ == simple_scan_from(self.source()).1,
    {
        let mut tokens: Vec<Token> = Vec::new();
        let mut errors: Vec<ScanError> = Vec::new();
        let line: u32 = 1;
        let mut source = stack_of(self.source.as_str());
        let ghost all = self.source@;
        proof {
            assert(tokens_view(tokens@) =~= Seq::<TokenView>::empty());
        }
        while source.len() > 0
            invariant
                all == self.source@,
                line == 1,
                ({
                    let (ts, es) = simple_scan_from(unstack(source@));
                    let (ts0, es0) = simple_scan_from(all);
                    &&& ts0 == tokens_view(tokens@) + ts
                    &&& es0 == errors@ + es
                }),
            decreases source.len(),
        {
            let ghost rest = unstack(source@);
            let ghost before_tokens = tokens_view(tokens@);
            let ghost before_errors = errors@;
            let ghost pre = source@;
            let c = source.pop().unwrap();
            proof {
                lemma_unstack_pop(pre);
            }
            let scanned = Scanner::scan_token(c, &mut source);
            proof {
                let t = simple_token_type(c, next_char(rest.drop_first()));
                let (ts, es) = simple_scan_from(unstack(source@));
                match t {
                    Some(ty) => {
                        lemma_push_then_append(before_tokens, bare_token(ty, 1), ts);
                    },
                    None => {
                        let e = ScanError { line: 1, character: c };
                        lemma_push_then_append(before_errors, e, es);
                    },
                }
            }
            match scanned {
                Ok(tok) => {
                    let tok = Token::new_keyword(tok, line);
                    tokens.push(tok);
                    proof {
                        assert(tokens_view(tokens@) =~= before_tokens.push(tokens@.last()@));
                    }
                },
                Err(why) => {
                    errors.push(ScanError { line, character: c });
                },
            }
        }
        proof {
            assert(unstack(source@) =~= Seq::<char>::empty());
            assert(tokens_view(tokens@) + Seq::<TokenView>::empty() =~= tokens_view(tokens@));
            assert(errors@ + Seq::<ScanError>::empty() =~= errors@);
        }
        let ghost before_tokens = tokens_view(tokens@);
        tokens.push(Token::new_keyword(TokenType::Eof, line));
        proof {
            assert(tokens_view(tokens@) =~= before_tokens.push(bare_token(TokenType::Eof, 1)));
        }
        (tokens, errors)
    }

    /// The kind of the token that starts with `c`; a second character is
    /// taken from `source` only for a two-character operator.
    fn scan_token(c: char, source: &mut Vec<char>) -> (r: Result<TokenType, &'static str>)
        ensures
            ({
                let rest = unstack(old(source)@);
                let t = simple_token_type(c, next_char(rest));
                &&& match r {
                    Ok(ty) => t == Some(ty),
                    Err(_) => t is None,
                }
                &&& unstack(final(source)@) == if t is Some && is_two_char(t->0) {
                    rest.drop_first()
                } else {
                    rest
                }
                &&& final(source)@.len() <= old(source)@.len()
            }),
    {
        let ghost pre = source@;
        let source_empty = source.len() == 0;
        let next_c = match source.pop() {
            Some(c) => c,
            None => ' ',
        };
        proof {
            if !source_empty {
                lemma_unstack_pop(pre);
            }
        }
        let token = match c {
            '(' => Ok(TokenType::LeftParen),
            ')' => Ok(TokenType::RightParen),
            '{' => Ok(TokenType::RightBrace),
            '}' => Ok(TokenType::LeftBrace),
            ',' => Ok(TokenType::Comma),
            '.' => Ok(TokenType::Dot),
            '-' => Ok(TokenType::Minus),
            '+' => Ok(TokenType::Plus),
            ';' => Ok(TokenType::Semicolon),
            '*' => Ok(TokenType::Star),
            '!' => if next_c == '=' { Ok(TokenType::BangEqual) } else { Ok(TokenType::Bang) },
            '=' => if next_c == '=' { Ok(TokenType::EqualEqual) } else { Ok(TokenType::Equal) },
            '<' => if next_c == '=' { Ok(TokenType::LessEqual) } else { Ok(TokenType::Less) },
            '>' => if next_c == '=' { Ok(TokenType::GreaterEqual) } else { Ok(TokenType::Greater) },
            _ => Err("Unexpected character"),
        };
        match token {
            Ok(TokenType::BangEqual) | Ok(TokenType::EqualEqual) | Ok(TokenType::LessEqual)
            | Ok(TokenType::GreaterEqual) => {},
            _ => {
                if !source_empty {
                    source.push(next_c);
                    assert(source@ =~= pre);
                }
            },
        }
        token
    }
}

} // verus!
