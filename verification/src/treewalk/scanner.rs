//! The scanner of the tree-walking interpreter: turns source text into
//! tokens, with comments, string and number literals, identifiers and
//! keywords, counting lines.

use vstd::prelude::*;
use crate::chars::{
    unstack, lemma_unstack_pop, lemma_unstack_push, is_decimal_digit, is_ascii_letter,
    alphanumeric, char_is_alphanumeric, push_char, string_of, stack_of, same_chars,
};
use crate::token::{Token, TokenView, bare_token};
use crate::token::token_type::TokenType;

verus! {

pub struct Scanner {
    source: String,
}

/// A character that no token starts with, and the line it stood on.
#[derive(Debug, Clone, Copy, PartialEq, Eq)]
pub struct ScanError {
    pub line: u32,
    pub character: char,
}

/// The keyword spelled by `w`, if any.
pub open spec fn keyword_type(w: Seq<char>) -> Option<TokenType> {
    if w == seq!['a', 'n', 'd'] { Some(TokenType::And) }
    else if w == seq!['b', 'r', 'e', 'a', 'k'] { Some(TokenType::Break) }
    else if w == seq!['c', 'l', 'a', 's', 's'] { Some(TokenType::Class) }
    else if w == seq!['e', 'l', 's', 'e'] { Some(TokenType::Else) }
    else if w == seq!['f', 'o', 'r'] { Some(TokenType::For) }
    else if w == seq!['f', 'u', 'n'] { Some(TokenType::Fun) }
    else if w == seq!['i', 'f'] { Some(TokenType::If) }
    else if w == seq!['n', 'i', 'l'] { Some(TokenType::Nil) }
    else if w == seq!['o', 'r'] { Some(TokenType::Or) }
    else if w == seq!['p', 'r', 'i', 'n', 't'] { Some(TokenType::Print) }
    else if w == seq!['r', 'e', 't', 'u', 'r', 'n'] { Some(TokenType::Return) }
    else if w == seq!['s', 'u', 'p', 'e', 'r'] { Some(TokenType::Super) }
    else if w == seq!['t', 'h', 'i', 's'] { Some(TokenType::This) }
    else if w == seq!['t', 'r', 'u', 'e'] { Some(TokenType::True) }
    else if w == seq!['f', 'a', 'l', 's', 'e'] { Some(TokenType::False) }
    else if w == seq!['v', 'a', 'r'] { Some(TokenType::Var) }
    else if w == seq!['w', 'h', 'i', 'l', 'e'] { Some(TokenType::While) }
    else { None }
}

/// What follows the first newline of `rest` (nothing if it has none).
pub open spec fn after_line(rest: Seq<char>) -> Seq<char>
    decreases rest.len(),
{
    if rest.len() == 0 {
        rest
    } else if rest[0] == '\n' {
        rest.drop_first()
    } else {
        after_line(rest.drop_first())
    }
}

/// What follows the first `*` `/` pair of `rest`, where `last` is the
/// character read just before `rest` (nothing if there is no such pair).
pub open spec fn after_block_comment(rest: Seq<char>, last: char) -> Seq<char>
    decreases rest.len(),
{
    if rest.len() == 0 {
        rest
    } else if rest[0] == '/' && last == '*' {
        rest.drop_first()
    } else {
        after_block_comment(rest.drop_first(), rest[0])
    }
}

/// The characters of `rest` before the first `"`, and what follows that
/// quote (all of `rest` and nothing if there is no quote).
pub open spec fn string_body(rest: Seq<char>) -> (Seq<char>, Seq<char>)
    decreases rest.len(),
{
    if rest.len() == 0 {
        (Seq::empty(), rest)
    } else if rest[0] == '"' {
        (Seq::empty(), rest.drop_first())
    } else {
        let (body, after) = string_body(rest.drop_first());
        (seq![rest[0]] + body, after)
    }
}

/// The longest prefix of `rest` made of decimal digits and at most one dot
/// in all (counting the `dots` already read), and what follows it.
pub open spec fn number_text(rest: Seq<char>, dots: nat) -> (Seq<char>, Seq<char>)
    decreases rest.len(),
{
    if rest.len() == 0 {
        (Seq::empty(), rest)
    } else if is_decimal_digit(rest[0]) {
        let (t, after) = number_text(rest.drop_first(), dots);
        (seq![rest[0]] + t, after)
    } else if rest[0] == '.' && dots == 0 {
        let (t, after) = number_text(rest.drop_first(), 1);
        (seq![rest[0]] + t, after)
    } else {
        (Seq::empty(), rest)
    }
}

/// The longest prefix of `rest` made of alphanumeric characters, and what
/// follows it.
pub open spec fn identifier_text(rest: Seq<char>) -> (Seq<char>, Seq<char>)
    decreases rest.len(),
{
    if rest.len() == 0 {
        (Seq::empty(), rest)
    } else if alphanumeric(rest[0]) {
        let (t, after) = identifier_text(rest.drop_first());
        (seq![rest[0]] + t, after)
    } else {
        (Seq::empty(), rest)
    }
}

/// The character after `c`, or a space at the end of the input.
pub open spec fn next_char(rest: Seq<char>) -> char {
    if rest.len() > 0 { rest[0] } else { ' ' }
}

/// The kind of the token that `c` makes by itself or, where `c` and `next`
/// form a two-character operator, together with `next`.
pub open spec fn operator_type(c: char, next: char) -> Option<TokenType> {
    if c == '(' { Some(TokenType::LeftParen) }
    else if c == ')' { Some(TokenType::RightParen) }
    else if c == '{' { Some(TokenType::LeftBrace) }
    else if c == '}' { Some(TokenType::RightBrace) }
    else if c == ',' { Some(TokenType::Comma) }
    else if c == '.' { Some(TokenType::Dot) }
    else if c == '-' { Some(TokenType::Minus) }
    else if c == '+' { Some(TokenType::Plus) }
    else if c == ';' { Some(TokenType::Semicolon) }
    else if c == '*' { Some(TokenType::Star) }
    else if c == '!' { if next == '=' { Some(TokenType::BangEqual) } else { Some(TokenType::Bang) } }
    else if c == '=' { if next == '=' { Some(TokenType::EqualEqual) } else { Some(TokenType::Equal) } }
    else if c == '<' { if next == '=' { Some(TokenType::LessEqual) } else { Some(TokenType::Less) } }
    else if c == '>' { if next == '=' { Some(TokenType::GreaterEqual) } else { Some(TokenType::Greater) } }
    else { None }
}

pub open spec fn is_two_char(t: TokenType) -> bool {
    t == TokenType::BangEqual || t == TokenType::EqualEqual || t == TokenType::LessEqual
        || t == TokenType::GreaterEqual
}

/// One step of scanning: `c` was read, `rest` follows it. The token made
/// (if any), what is left to read, the line after the step, and the error
/// (if `c` starts no token).
pub open spec fn scan_one(c: char, rest: Seq<char>, line: u32) -> (
    Option<TokenView>,
    Seq<char>,
    u32,
    Option<ScanError>,
) {
    let next = next_char(rest);
    if operator_type(c, next) is Some {
        let t = operator_type(c, next)->0;
        (Some(bare_token(t, line)), if is_two_char(t) { rest.drop_first() } else { rest }, line, None)
    } else if c == '/' {
        if next == '/' {
            (None, after_line(rest), line, None)
        } else if next == '*' {
            (None, after_block_comment(rest, '/'), line, None)
        } else {
            (Some(bare_token(TokenType::Slash, line)), rest, line, None)
        }
    } else if c == ' ' || c == '\r' || c == '\t' {
        (None, rest, line, None)
    } else if c == '\n' {
        (None, rest, (line + 1) as u32, None)
    } else if c == '"' {
        let (body, after) = string_body(rest);
        (
            Some(TokenView { type_of: TokenType::String, lexeme: Seq::empty(), literal: Some(body), line }),
            after,
            line,
            None,
        )
    } else if is_decimal_digit(c) {
        let (t, after) = number_text(seq![c] + rest, 0);
        (
            Some(TokenView { type_of: TokenType::Number, lexeme: Seq::empty(), literal: Some(t), line }),
            after,
            line,
            None,
        )
    } else if is_ascii_letter(c) {
        let (w, after) = identifier_text(seq![c] + rest);
        match keyword_type(w) {
            Some(k) => (Some(bare_token(k, line)), after, line, None),
            None => (
                Some(TokenView { type_of: TokenType::Identifier, lexeme: w, literal: None, line }),
                after,
                line,
                None,
            ),
        }
    } else {
        (None, rest, line, Some(ScanError { line, character: c }))
    }
}

pub proof fn lemma_number_text(rest: Seq<char>, dots: nat)
    ensures
        number_text(rest, dots).1.len() <= rest.len(),
        rest.len() > 0 && is_decimal_digit(rest[0]) ==> number_text(rest, dots).1.len() < rest.len(),
    decreases rest.len(),
{
    if rest.len() > 0 {
        if is_decimal_digit(rest[0]) {
            lemma_number_text(rest.drop_first(), dots);
        } else if rest[0] == '.' && dots == 0 {
            lemma_number_text(rest.drop_first(), 1);
        }
    }
}

/// A scanning step never makes an `Eof` token.
pub proof fn lemma_keyword_not_eof(rest: Seq<char>, line: u32)
    requires
        rest.len() > 0,
    ensures
        scan_one(rest[0], rest.drop_first(), line).0 matches Some(t) ==> t.type_of != TokenType::Eof,
{
    let c = rest[0];
    let (w, after) = identifier_text(seq![c] + rest.drop_first());
    assert(keyword_type(w) matches Some(k) ==> k != TokenType::Eof);
}

/// The number of newline characters in `s`.
pub open spec fn newline_count(s: Seq<char>) -> nat
    decreases s.len(),
{
    if s.len() == 0 {
        0
    } else {
        (if s[0] == '\n' { 1nat } else { 0nat }) + newline_count(s.drop_first())
    }
}

pub proof fn lemma_newlines_after_line(rest: Seq<char>)
    ensures
        newline_count(after_line(rest)) <= newline_count(rest),
    decreases rest.len(),
{
    if rest.len() > 0 && rest[0] != '\n' {
        lemma_newlines_after_line(rest.drop_first());
    }
}

pub proof fn lemma_newlines_after_block_comment(rest: Seq<char>, last: char)
    ensures
        newline_count(after_block_comment(rest, last)) <= newline_count(rest),
    decreases rest.len(),
{
    if rest.len() > 0 && !(rest[0] == '/' && last == '*') {
        lemma_newlines_after_block_comment(rest.drop_first(), rest[0]);
    }
}

pub proof fn lemma_newlines_string_body(rest: Seq<char>)
    ensures
        newline_count(string_body(rest).1) <= newline_count(rest),
    decreases rest.len(),
{
    if rest.len() > 0 && rest[0] != '"' {
        lemma_newlines_string_body(rest.drop_first());
    }
}

/// A number's text holds no newline, and no quote or slash.
pub proof fn lemma_newlines_number_text(rest: Seq<char>, dots: nat)
    ensures
        newline_count(number_text(rest, dots).1) == newline_count(rest),
        plain(rest) ==> plain(number_text(rest, dots).1),
    decreases rest.len(),
{
    if rest.len() > 0 {
        if is_decimal_digit(rest[0]) {
            lemma_newlines_number_text(rest.drop_first(), dots);
            lemma_plain_drop_first(rest);
        } else if rest[0] == '.' && dots == 0 {
            lemma_newlines_number_text(rest.drop_first(), 1);
            lemma_plain_drop_first(rest);
        }
    }
}

/// An identifier's text holds no newline, and no quote or slash; taking it
/// leaves less to read when it is not empty.
pub proof fn lemma_newlines_identifier_text(rest: Seq<char>)
    ensures
        newline_count(identifier_text(rest).1) == newline_count(rest),
        identifier_text(rest).1.len() <= rest.len(),
        rest.len() > 0 && alphanumeric(rest[0]) ==> identifier_text(rest).1.len() < rest.len(),
        plain(rest) ==> plain(identifier_text(rest).1),
    decreases rest.len(),
{
    if rest.len() > 0 && alphanumeric(rest[0]) {
        assert(rest[0] != '\n');
        lemma_newlines_identifier_text(rest.drop_first());
        lemma_plain_drop_first(rest);
    }
}

/// Whether `s` holds no quote and no slash: nothing that starts a string
/// or a comment.
pub open spec fn plain(s: Seq<char>) -> bool {
    forall|i: int| 0 <= i < s.len() ==> #[trigger] s[i] != '"' && s[i] != '/'
}

pub proof fn lemma_plain_drop_first(s: Seq<char>)
    requires
        s.len() > 0,
    ensures
        plain(s) ==> plain(s.drop_first()),
{
    if plain(s) {
        assert forall|i: int| 0 <= i < s.drop_first().len() implies #[trigger] s.drop_first()[i] != '"'
            && s.drop_first()[i] != '/' by {
            assert(s.drop_first()[i] == s[i + 1]);
        }
    }
}

/// A scanning step counts each newline it reads as a new line, and reads
/// past at most as many newlines as it counts, or more in a comment or a
/// string. On plain text it counts every newline it reads past.
pub proof fn lemma_step_newlines(rest: Seq<char>, line: u32)
    requires
        rest.len() > 0,
        line + newline_count(rest) <= u32::MAX,
    ensures
        ({
            let st = scan_one(rest[0], rest.drop_first(), line);
            &&& st.2 as int == line + (if rest[0] == '\n' { 1int } else { 0int })
            &&& newline_count(st.1) + st.2 <= newline_count(rest) + line
            &&& plain(rest) ==> {
                &&& st.1.len() < rest.len()
                &&& newline_count(st.1) + st.2 == newline_count(rest) + line
                &&& plain(st.1)
            }
        }),
{
    let c = rest[0];
    let r1 = rest.drop_first();
    assert(newline_count(rest) == (if c == '\n' { 1nat } else { 0nat }) + newline_count(r1));
    lemma_plain_drop_first(rest);
    lemma_newlines_after_line(r1);
    lemma_newlines_after_block_comment(r1, '/');
    lemma_newlines_string_body(r1);
    lemma_newlines_number_text(seq![c] + r1, 0);
    lemma_number_text(seq![c] + r1, 0);
    lemma_newlines_identifier_text(seq![c] + r1);
    assert((seq![c] + r1).drop_first() =~= r1);
    assert(seq![c] + r1 =~= rest);
    if r1.len() > 0 {
        assert(newline_count(r1) == (if r1[0] == '\n' { 1nat } else { 0nat }) + newline_count(r1.drop_first()));
        if plain(rest) {
            lemma_plain_drop_first(r1);
        }
    }
}

/// Scanning `rest` from line `line`: the tokens, the errors, and the line
/// reached at the end.
pub open spec fn scan_from(rest: Seq<char>, line: u32) -> (Seq<TokenView>, Seq<ScanError>, u32)
    decreases rest.len(),
{
    if rest.len() == 0 {
        (Seq::empty(), Seq::empty(), line)
    } else {
        let step = scan_one(rest[0], rest.drop_first(), line);
        let after = if step.1.len() < rest.len() { step.1 } else { Seq::empty() };
        let (ts, es, l) = scan_from(after, step.2);
        (
            match step.0 { Some(t) => seq![t] + ts, None => ts },
            match step.3 { Some(e) => seq![e] + es, None => es },
            l,
        )
    }
}

/// The tokens of `source`: those scanned from line 1, then `Eof` on the
/// line reached at the end.
pub open spec fn scan_source(source: Seq<char>) -> Seq<TokenView> {
    let (ts, es, l) = scan_from(source, 1);
    ts.push(bare_token(TokenType::Eof, l))
}

/// The characters of `source` that start no token, with their lines.
pub open spec fn scan_errors(source: Seq<char>) -> Seq<ScanError> {
    scan_from(source, 1).1
}

pub open spec fn tokens_view(v: Seq<Token>) -> Seq<TokenView> {
    v.map_values(|t: Token| t@)
}

impl Scanner {
    pub fn new(source: &str) -> (s: Scanner)
        ensures
            s.source() == source@,
    {
        let source = String::from_str(source);
        Scanner { source }
    }

    pub closed spec fn source(&self) -> Seq<char> {
        self.source@
    }

    /// The tokens of the source, ending with `Eof`. Characters that start no
    /// token are skipped (see `scan_tokens_with_errors`).
    pub fn scan_tokens(&self) -> (tokens: Vec<Token>)
        requires
            newline_count(self.source()) < u32::MAX,
        ensures
            tokens_view(tokens@) == scan_source(self.source()),
    {
        self.scan_tokens_with_errors().0
    }

    /// The tokens of the source, and the characters that start no token.
    pub fn scan_tokens_with_errors(&self) -> (r: (Vec<Token>, Vec<ScanError>))
        requires
            newline_count(self.source()) < u32::MAX,
        ensures
            tokens_view(r.0@) == scan_source(self.source()),
            r.1@ == scan_errors(self.source()),
    {
        let mut tokens: Vec<Token> = Vec::new();
        let mut errors: Vec<ScanError> = Vec::new();
        let mut line: u32 = 1;
        let mut source = stack_of(self.source.as_str());
        let ghost all = self.source@;
        proof {
            assert(tokens_view(tokens@) =~= Seq::<TokenView>::empty());
        }
        while source.len() > 0
            invariant
                all == self.source@,
                newline_count(all) < u32::MAX,
                unstack(source@).len() == source@.len(),
                line as int + newline_count(unstack(source@)) <= 1 + newline_count(all),
                ({
                    let (ts, es, l) = scan_from(unstack(source@), line);
                    let (ts0, es0, l0) = scan_from(all, 1);
                    &&& ts0 == tokens_view(tokens@) + ts
                    &&& es0 == errors@ + es
                    &&& l0 == l
                }),
            decreases source.len(),
        {
            let ghost rest = unstack(source@);
            let ghost before_tokens = tokens_view(tokens@);
            let ghost before_errors = errors@;
            let ghost line0 = line;
            let ghost pre = source@;
            let c = source.pop().unwrap();
            proof {
                lemma_unstack_pop(pre);
                assert(c == rest[0]);
                assert(unstack(source@) == rest.drop_first());
                lemma_step_newlines(rest, line0);
            }
            let step = Scanner::scan_token(c, &mut source, &mut line);
            proof {
                let st = scan_one(rest[0], rest.drop_first(), line0);
                assert(st.1 == unstack(source@));
                assert(st.1.len() < rest.len());
            }
            match step {
                Ok(Some(tok)) => {
                    tokens.push(tok);
                    proof {
                        assert(tokens_view(tokens@) =~= before_tokens.push(tokens@.last()@));
                    }
                },
                Ok(None) => {},
                Err(e) => {
                    errors.push(e);
                },
            }
            proof {
                let st = scan_one(rest[0], rest.drop_first(), line0);
                let (ts, es, l) = scan_from(st.1, st.2);
                match st.0 {
                    Some(t) => {
                        assert(before_tokens + (seq![t] + ts) =~= tokens_view(tokens@) + ts);
                    },
                    None => {
                        assert(tokens_view(tokens@) =~= before_tokens);
                    },
                }
                match st.3 {
                    Some(e) => {
                        assert(before_errors + (seq![e] + es) =~= errors@ + es);
                    },
                    None => {},
                }
            }
        }
        proof {
            assert(unstack(source@) =~= Seq::<char>::empty());
            assert(tokens_view(tokens@) + Seq::<TokenView>::empty() =~= tokens_view(tokens@));
            assert(errors@ + Seq::<ScanError>::empty() =~= errors@);
        }
        let eof = Token::new_keyword(TokenType::Eof, line);
        let ghost before_tokens = tokens_view(tokens@);
        tokens.push(eof);
        proof {
            assert(tokens_view(tokens@) =~= before_tokens.push(bare_token(TokenType::Eof, line)));
        }
        (tokens, errors)
    }

    /// Scans the token that starts with `c`, reading further characters
    /// from `source` (a stack whose top is the next character).
    fn scan_token(c: char, source: &mut Vec<char>, line: &mut u32) -> (r: Result<Option<Token>, ScanError>)
        requires
            c == '\n' ==> *old(line) < u32::MAX,
        ensures
            final(source)@.len() <= old(source)@.len(),
            *final(line) <= *old(line) + 1,
            ({
                let st = scan_one(c, unstack(old(source)@), *old(line));
                &&& unstack(final(source)@) == st.1
                &&& *final(line) == st.2
                &&& match r {
                    Ok(Some(t)) => st.0 == Some(t@) && st.3 is None,
                    Ok(None) => st.0 is None && st.3 is None,
                    Err(e) => st.0 is None && st.3 == Some(e),
                }
            }),
    {
        let ghost rest = unstack(source@);
        let next_c = if source.len() > 0 { source[source.len() - 1] } else { ' ' };
        proof {
            if source@.len() > 0 {
                lemma_unstack_pop(source@);
            }
            assert(next_c == next_char(rest));
        }
        let token_type = match c {
            '(' => Some(TokenType::LeftParen),
            ')' => Some(TokenType::RightParen),
            '{' => Some(TokenType::LeftBrace),
            '}' => Some(TokenType::RightBrace),
            ',' => Some(TokenType::Comma),
            '.' => Some(TokenType::Dot),
            '-' => Some(TokenType::Minus),
            '+' => Some(TokenType::Plus),
            ';' => Some(TokenType::Semicolon),
            '*' => Some(TokenType::Star),
            '!' => if next_c == '=' { Some(TokenType::BangEqual) } else { Some(TokenType::Bang) },
            '=' => if next_c == '=' { Some(TokenType::EqualEqual) } else { Some(TokenType::Equal) },
            '<' => if next_c == '=' { Some(TokenType::LessEqual) } else { Some(TokenType::Less) },
            '>' => if next_c == '=' { Some(TokenType::GreaterEqual) } else { Some(TokenType::Greater) },
            // Inline and block comments
            '/' => {
                if next_c == '/' {
                    eat_line(source);
                    return Ok(None);
                } else if next_c == '*' {
                    eat_block_comment(source);
                    return Ok(None);
                } else {
                    Some(TokenType::Slash)
                }
            },
            // Whitespace
            ' ' | '\r' | '\t' => None,
            '\n' => {
                *line = *line + 1;
                None
            },
            // String literals
            '"' => {
                let literal = eat_string(source);
                return Ok(Some(Token::new_string(literal.as_str(), *line)));
            },
            // Number literals
            '0'..='9' => {
                proof {
                    lemma_unstack_push(source@, c);
                    lemma_number_text(seq![c] + unstack(source@), 0);
                }
                source.push(c);
                let literal = eat_number(source);
                return Ok(Some(Token::new_number(literal.as_str(), *line)));
            },
            // Alphabetic words
            'a'..='z' | 'A'..='Z' => {
                proof { lemma_unstack_push(source@, c); }
                source.push(c);
                let lexeme = eat_identifier(source);
                match keyword(&lexeme) {
                    Some(type_of) => {
                        return Ok(Some(Token::new_keyword(type_of, *line)));
                    },
                    None => {
                        let name = string_of(&lexeme);
                        return Ok(Some(Token::new_identifier(name.as_str(), *line)));
                    },
                }
            },
            // Couldn't match
            _ => {
                return Err(ScanError { line: *line, character: c });
            },
        };
        match token_type {
            Some(TokenType::BangEqual) | Some(TokenType::EqualEqual) | Some(TokenType::LessEqual)
            | Some(TokenType::GreaterEqual) => {
                proof { lemma_unstack_pop(source@); }
                source.pop();
            },
            _ => {},
        }
        match token_type {
            Some(type_of) => Ok(Some(Token::new_keyword(type_of, *line))),
            None => Ok(None),
        }
    }
}

/// The keyword spelled by `word`, if any.
fn keyword(word: &Vec<char>) -> (r: Option<TokenType>)
    ensures
        r == keyword_type(word@),
{
    if same_chars(word, &['a', 'n', 'd']) { Some(TokenType::And) }
    else if same_chars(word, &['b', 'r', 'e', 'a', 'k']) { Some(TokenType::Break) }
    else if same_chars(word, &['c', 'l', 'a', 's', 's']) { Some(TokenType::Class) }
    else if same_chars(word, &['e', 'l', 's', 'e']) { Some(TokenType::Else) }
    else if same_chars(word, &['f', 'o', 'r']) { Some(TokenType::For) }
    else if same_chars(word, &['f', 'u', 'n']) { Some(TokenType::Fun) }
    else if same_chars(word, &['i', 'f']) { Some(TokenType::If) }
    else if same_chars(word, &['n', 'i', 'l']) { Some(TokenType::Nil) }
    else if same_chars(word, &['o', 'r']) { Some(TokenType::Or) }
    else if same_chars(word, &['p', 'r', 'i', 'n', 't']) { Some(TokenType::Print) }
    else if same_chars(word, &['r', 'e', 't', 'u', 'r', 'n']) { Some(TokenType::Return) }
    else if same_chars(word, &['s', 'u', 'p', 'e', 'r']) { Some(TokenType::Super) }
    else if same_chars(word, &['t', 'h', 'i', 's']) { Some(TokenType::This) }
    else if same_chars(word, &['t', 'r', 'u', 'e']) { Some(TokenType::True) }
    else if same_chars(word, &['f', 'a', 'l', 's', 'e']) { Some(TokenType::False) }
    else if same_chars(word, &['v', 'a', 'r']) { Some(TokenType::Var) }
    else if same_chars(word, &['w', 'h', 'i', 'l', 'e']) { Some(TokenType::While) }
    else { None }
}

/// Consumes the stack up to and including the first newline.
fn eat_line(source: &mut Vec<char>)
    ensures
        final(source)@.len() <= old(source)@.len(),
        unstack(final(source)@) == after_line(unstack(old(source)@)),
{
    while source.len() > 0
        invariant
            source@.len() <= old(source)@.len(),
            after_line(unstack(source@)) == after_line(unstack(old(source)@)),
        decreases source.len(),
    {
        proof { lemma_unstack_pop(source@); }
        let c = source.pop().unwrap();
        if c == '\n' {
            return;
        }
    }
}

/// Consumes the stack up to and including the first `*` `/` pair.
fn eat_block_comment(source: &mut Vec<char>)
    ensures
        final(source)@.len() <= old(source)@.len(),
        unstack(final(source)@) == after_block_comment(unstack(old(source)@), '/'),
{
    let mut last_seen = '/';
    while source.len() > 0
        invariant
            source@.len() <= old(source)@.len(),
            after_block_comment(unstack(source@), last_seen)
                == after_block_comment(unstack(old(source)@), '/'),
        decreases source.len(),
    {
        proof { lemma_unstack_pop(source@); }
        let c = source.pop().unwrap();
        if c == '/' && last_seen == '*' {
            return;
        }
        last_seen = c;
    }
}

/// Consumes the stack up to and including the next quotation mark (or to
/// its end); returns the characters before it.
fn eat_string(source: &mut Vec<char>) -> (literal: String)
    ensures
        final(source)@.len() <= old(source)@.len(),
        (literal@, unstack(final(source)@)) == string_body(unstack(old(source)@)),
{
    let mut literal = String::new();
    while source.len() > 0
        invariant
            source@.len() <= old(source)@.len(),
            ({
                let (b, a) = string_body(unstack(source@));
                string_body(unstack(old(source)@)) == (literal@ + b, a)
            }),
        decreases source.len(),
    {
        proof { lemma_unstack_pop(source@); }
        let ghost rest = unstack(source@);
        let c = source.pop().unwrap();
        if c == '"' {
            assert(literal@ + Seq::<char>::empty() =~= literal@);
            return literal;
        } else {
            let ghost lit0 = literal@;
            push_char(&mut literal, c);
            proof {
                let (b, a) = string_body(rest.drop_first());
                assert(lit0 + (seq![c] + b) =~= literal@ + b);
            }
        }
    }
    assert(literal@ + Seq::<char>::empty() =~= literal@);
    literal
}

/// Consumes decimal digits and at most one dot from the stack; returns them.
fn eat_number(source: &mut Vec<char>) -> (literal: String)
    ensures
        final(source)@.len() <= old(source)@.len(),
        (literal@, unstack(final(source)@)) == number_text(unstack(old(source)@), 0),
{
    let mut literal = String::new();
    let mut dot_count: u8 = 0;
    while source.len() > 0
        invariant
            source@.len() <= old(source)@.len(),
            dot_count <= 1,
            ({
                let (t, a) = number_text(unstack(source@), dot_count as nat);
                number_text(unstack(old(source)@), 0) == (literal@ + t, a)
            }),
        decreases source.len(),
    {
        proof { lemma_unstack_pop(source@); }
        let ghost rest = unstack(source@);
        let ghost lit0 = literal@;
        let ghost dots0 = dot_count as nat;
        let c = source.pop().unwrap();
        if '0' <= c && c <= '9' {
            push_char(&mut literal, c);
            proof {
                let (t, a) = number_text(rest.drop_first(), dots0);
                assert(lit0 + (seq![c] + t) =~= literal@ + t);
            }
        } else if c == '.' && dot_count == 0 {
            dot_count = dot_count + 1;
            push_char(&mut literal, c);
            proof {
                let (t, a) = number_text(rest.drop_first(), 1);
                assert(lit0 + (seq![c] + t) =~= literal@ + t);
            }
        } else {
            proof {
                lemma_unstack_push(source@, c);
                assert(seq![c] + unstack(source@) =~= rest);
                assert(literal@ + Seq::<char>::empty() =~= literal@);
            }
            source.push(c);
            return literal;
        }
    }
    assert(literal@ + Seq::<char>::empty() =~= literal@);
    literal
}

/// Consumes alphanumeric characters from the stack; returns them.
fn eat_identifier(source: &mut Vec<char>) -> (literal: Vec<char>)
    ensures
        (literal@, unstack(final(source)@)) == identifier_text(unstack(old(source)@)),
        old(source)@.len() > 0 && is_ascii_letter(old(source)@.last())
            ==> final(source)@.len() < old(source)@.len(),
{
    let mut literal: Vec<char> = Vec::new();
    while source.len() > 0
        invariant
            source@.len() <= old(source)@.len(),
            old(source)@.len() > 0 && is_ascii_letter(old(source)@.last())
                ==> source@.len() < old(source)@.len() || source@ == old(source)@,
            ({
                let (t, a) = identifier_text(unstack(source@));
                identifier_text(unstack(old(source)@)) == (literal@ + t, a)
            }),
        decreases source.len(),
    {
        proof { lemma_unstack_pop(source@); }
        let ghost rest = unstack(source@);
        let ghost lit0 = literal@;
        let c = source.pop().unwrap();
        if char_is_alphanumeric(c) {
            literal.push(c);
            proof {
                let (t, a) = identifier_text(rest.drop_first());
                assert(lit0 + (seq![c] + t) =~= literal@ + t);
            }
        } else {
            proof {
                lemma_unstack_push(source@, c);
                assert(seq![c] + unstack(source@) =~= rest);
                assert(literal@ + Seq::<char>::empty() =~= literal@);
            }
            source.push(c);
            return literal;
        }
    }
    assert(literal@ + Seq::<char>::empty() =~= literal@);
    literal
}

} // verus!
