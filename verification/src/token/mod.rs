pub mod token_type;

use vstd::prelude::*;
use vstd::string::StringExecFns;
use self::token_type::TokenType;

verus! {

/// A lexical token: its kind, its lexeme, an optional literal payload
/// (the text of a number or the contents of a string) and its line.
#[derive(Debug, Clone, PartialEq, Eq)]
pub struct Token {
    pub type_of: TokenType,
    pub lexeme: String,
    pub literal: Option<String>,
    pub line: u32,
}

/// The mathematical value of a [`Token`].
pub struct TokenView {
    pub type_of: TokenType,
    pub lexeme: Seq<char>,
    pub literal: Option<Seq<char>>,
    pub line: u32,
}

pub open spec fn opt_string_view(o: Option<String>) -> Option<Seq<char>> {
    match o {
        Some(s) => Some(s@),
        None => None,
    }
}

impl View for Token {
    type V = TokenView;

    open spec fn view(&self) -> TokenView {
        TokenView {
            type_of: self.type_of,
            lexeme: self.lexeme@,
            literal: opt_string_view(self.literal),
            line: self.line,
        }
    }
}

/// The token that carries no lexeme and no literal.
pub open spec fn bare_token(type_of: TokenType, line: u32) -> TokenView {
    TokenView { type_of, lexeme: Seq::empty(), literal: None, line }
}

/// A copy of an optional string.
pub fn copy_opt_string(o: &Option<String>) -> (r: Option<String>)
    ensures
        opt_string_view(r) == opt_string_view(*o),
{
    match o {
        Some(s) => Some(s.clone()),
        None => None,
    }
}

impl Token {
    pub fn new(type_of: TokenType, lexeme: &str, line: u32) -> (r: Token)
        ensures
            r@ == (TokenView { type_of, lexeme: lexeme@, literal: None, line }),
    {
        let literal = None;
        let lexeme = String::from_str(lexeme);
        Token { type_of, lexeme, literal, line }
    }

    pub fn new_literal(type_of: TokenType, lexeme: &str, literal: &str, line: u32) -> (r: Token)
        ensures
            r@ == (TokenView { type_of, lexeme: lexeme@, literal: Some(literal@), line }),
    {
        let literal = Some(String::from_str(literal));
        let lexeme = String::from_str(lexeme);
        Token { type_of, lexeme, literal, line }
    }

    /// A keyword or punctuation token: no lexeme, no literal.
    pub fn new_keyword(type_of: TokenType, line: u32) -> (r: Token)
        ensures
            r@ == bare_token(type_of, line),
    {
        Token { type_of, lexeme: String::new(), literal: None, line }
    }

    /// A number token whose literal is the number's source text.
    pub fn new_number(literal: &str, line: u32) -> (r: Token)
        ensures
            r@ == (TokenView {
                type_of: TokenType::Number,
                lexeme: Seq::empty(),
                literal: Some(literal@),
                line,
            }),
    {
        Token {
            type_of: TokenType::Number,
            lexeme: String::new(),
            literal: Some(String::from_str(literal)),
            line,
        }
    }

    /// A string token whose literal is the string's contents.
    pub fn new_string(literal: &str, line: u32) -> (r: Token)
        ensures
            r@ == (TokenView {
                type_of: TokenType::String,
                lexeme: Seq::empty(),
                literal: Some(literal@),
                line,
            }),
    {
        Token {
            type_of: TokenType::String,
            lexeme: String::new(),
            literal: Some(String::from_str(literal)),
            line,
        }
    }

    /// An identifier token whose lexeme is the identifier's name.
    pub fn new_identifier(name: &str, line: u32) -> (r: Token)
        ensures
            r@ == (TokenView { type_of: TokenType::Identifier, lexeme: name@, literal: None, line }),
    {
        Token { type_of: TokenType::Identifier, lexeme: String::from_str(name), literal: None, line }
    }

    /// A field-by-field copy.
    pub fn duplicate(&self) -> (r: Token)
        ensures
            r@ == self@,
    {
        Token {
            type_of: self.type_of,
            lexeme: self.lexeme.clone(),
            literal: copy_opt_string(&self.literal),
            line: self.line,
        }
    }
}

/// The value of a literal expression, as the parser found it.
/// A number is kept as its source text.
#[derive(Debug, Clone, PartialEq, Eq)]
pub enum Literal {
    Nil,
    Bool(bool),
    Number(String),
    Str(String),
}

pub enum LiteralView {
    Nil,
    Bool(bool),
    Number(Seq<char>),
    Str(Seq<char>),
}

impl View for Literal {
    type V = LiteralView;

    open spec fn view(&self) -> LiteralView {
        match self {
            Literal::Nil => LiteralView::Nil,
            Literal::Bool(b) => LiteralView::Bool(*b),
            Literal::Number(s) => LiteralView::Number(s@),
            Literal::Str(s) => LiteralView::Str(s@),
        }
    }
}

/// A run-time value. A number is held as the bit pattern of an IEEE 754
/// double; a function is held as its index in the interpreter's table of
/// function values.
#[derive(Debug, Clone, PartialEq, Eq)]
pub enum Object {
    Nil,
    NoValue,
    Bool(bool),
    Number(u64),
    String(String),
    Function(usize),
}

pub enum ObjectView {
    Nil,
    NoValue,
    Bool(bool),
    Number(u64),
    String(Seq<char>),
    Function(usize),
}

impl View for Object {
    type V = ObjectView;

    open spec fn view(&self) -> ObjectView {
        match self {
            Object::Nil => ObjectView::Nil,
            Object::NoValue => ObjectView::NoValue,
            Object::Bool(b) => ObjectView::Bool(*b),
            Object::Number(n) => ObjectView::Number(*n),
            Object::String(s) => ObjectView::String(s@),
            Object::Function(f) => ObjectView::Function(*f),
        }
    }
}

impl Object {
    /// A copy of the value.
    pub fn duplicate(&self) -> (r: Object)
        ensures
            r@ == self@,
    {
        match self {
            Object::Nil => Object::Nil,
            Object::NoValue => Object::NoValue,
            Object::Bool(b) => Object::Bool(*b),
            Object::Number(n) => Object::Number(*n),
            Object::String(s) => Object::String(s.clone()),
            Object::Function(f) => Object::Function(*f),
        }
    }
}

} // verus!
