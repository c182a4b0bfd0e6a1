//! The token model: the closed set of lexical categories.

use vstd::prelude::*;
use vstd::std_specs::cmp::PartialEqSpecImpl;

verus! {

/// Every token of Alpaca.
#[derive(Debug)]
pub enum TokenKind {
    // Punctuation
    OpenParen,
    CloseParen,
    OpenBracket,
    CloseBracket,
    Comma,
    Dot,
    Colon,
    Arrow,
    // Operators
    Equal,
    EqualEqual,
    Bang,
    BangEqual,
    Greater,
    GreaterEqual,
    Less,
    LessEqual,
    Plus,
    Minus,
    Star,
    Slash,
    // Literals, with their text as written
    String(String),
    Integer(String),
    // Identifiers
    Ident(String),
    // Keywords
    And,
    Do,
    Else,
    End,
    False,
    For,
    Fun,
    If,
    Let,
    Or,
    Return,
    True,
    Type,
    While,
    // A lexical error with its message, and the end of the input
    Error(String),
    EoF,
}

/// The mathematical value of a `TokenKind`: the same categories, with the
/// text of a token as a sequence of characters.
pub enum Token {
    // Punctuation
    OpenParen,
    CloseParen,
    OpenBracket,
    CloseBracket,
    Comma,
    Dot,
    Colon,
    Arrow,
    // Operators
    Equal,
    EqualEqual,
    Bang,
    BangEqual,
    Greater,
    GreaterEqual,
    Less,
    LessEqual,
    Plus,
    Minus,
    Star,
    Slash,
    // Literals, with their text as written
    String(Seq<char>),
    Integer(Seq<char>),
    // Identifiers
    Ident(Seq<char>),
    // Keywords
    And,
    Do,
    Else,
    End,
    False,
    For,
    Fun,
    If,
    Let,
    Or,
    Return,
    True,
    Type,
    While,
    // A lexical error with its message, and the end of the input
    Error(Seq<char>),
    EoF,
}

impl View for TokenKind {
    type V = Token;

    open spec fn view(&self) -> Token {
        match self {
            TokenKind::OpenParen => Token::OpenParen,
            TokenKind::CloseParen => Token::CloseParen,
            TokenKind::OpenBracket => Token::OpenBracket,
            TokenKind::CloseBracket => Token::CloseBracket,
            TokenKind::Comma => Token::Comma,
            TokenKind::Dot => Token::Dot,
            TokenKind::Colon => Token::Colon,
            TokenKind::Arrow => Token::Arrow,
            TokenKind::Equal => Token::Equal,
            TokenKind::EqualEqual => Token::EqualEqual,
            TokenKind::Bang => Token::Bang,
            TokenKind::BangEqual => Token::BangEqual,
            TokenKind::Greater => Token::Greater,
            TokenKind::GreaterEqual => Token::GreaterEqual,
            TokenKind::Less => Token::Less,
            TokenKind::LessEqual => Token::LessEqual,
            TokenKind::Plus => Token::Plus,
            TokenKind::Minus => Token::Minus,
            TokenKind::Star => Token::Star,
            TokenKind::Slash => Token::Slash,
            TokenKind::String(s) => Token::String(s@),
            TokenKind::Integer(s) => Token::Integer(s@),
            TokenKind::Ident(s) => Token::Ident(s@),
            TokenKind::And => Token::And,
            TokenKind::Do => Token::Do,
            TokenKind::Else => Token::Else,
            TokenKind::End => Token::End,
            TokenKind::False => Token::False,
            TokenKind::For => Token::For,
            TokenKind::Fun => Token::Fun,
            TokenKind::If => Token::If,
            TokenKind::Let => Token::Let,
            TokenKind::Or => Token::Or,
            TokenKind::Return => Token::Return,
            TokenKind::True => Token::True,
            TokenKind::Type => Token::Type,
            TokenKind::While => Token::While,
            TokenKind::Error(s) => Token::Error(s@),
            TokenKind::EoF => Token::EoF,
        }
    }
}

impl Token {
    /// The text by which the token is written in a source. An error token
    /// and the end of input have none.
    pub open spec fn lexeme(self) -> Seq<char> {
        match self {
            Token::OpenParen => "("@,
            Token::CloseParen => ")"@,
            Token::OpenBracket => "["@,
            Token::CloseBracket => "]"@,
            Token::Comma => ","@,
            Token::Dot => "."@,
            Token::Colon => ":"@,
            Token::Arrow => "->"@,
            Token::Equal => "="@,
            Token::EqualEqual => "=="@,
            Token::Bang => "!"@,
            Token::BangEqual => "!="@,
            Token::Greater => ">"@,
            Token::GreaterEqual => ">="@,
            Token::Less => "<"@,
            Token::LessEqual => "<="@,
            Token::Plus => "+"@,
            Token::Minus => "-"@,
            Token::Star => "*"@,
            Token::Slash => "/"@,
            Token::String(s) => s,
            Token::Integer(s) => s,
            Token::Ident(s) => s,
            Token::And => "and"@,
            Token::Do => "do"@,
            Token::Else => "else"@,
            Token::End => "end"@,
            Token::False => "false"@,
            Token::For => "for"@,
            Token::Fun => "fun"@,
            Token::If => "if"@,
            Token::Let => "let"@,
            Token::Or => "or"@,
            Token::Return => "return"@,
            Token::True => "true"@,
            Token::Type => "type"@,
            Token::While => "while"@,
            Token::Error(_) => Seq::empty(),
            Token::EoF => Seq::empty(),
        }
    }
}

impl Clone for TokenKind {
    fn clone(&self) -> (r: Self)
        ensures
            r == *self,
    {
        match self {
            TokenKind::OpenParen => TokenKind::OpenParen,
            TokenKind::CloseParen => TokenKind::CloseParen,
            TokenKind::OpenBracket => TokenKind::OpenBracket,
            TokenKind::CloseBracket => TokenKind::CloseBracket,
            TokenKind::Comma => TokenKind::Comma,
            TokenKind::Dot => TokenKind::Dot,
            TokenKind::Colon => TokenKind::Colon,
            TokenKind::Arrow => TokenKind::Arrow,
            TokenKind::Equal => TokenKind::Equal,
            TokenKind::EqualEqual => TokenKind::EqualEqual,
            TokenKind::Bang => TokenKind::Bang,
            TokenKind::BangEqual => TokenKind::BangEqual,
            TokenKind::Greater => TokenKind::Greater,
            TokenKind::GreaterEqual => TokenKind::GreaterEqual,
            TokenKind::Less => TokenKind::Less,
            TokenKind::LessEqual => TokenKind::LessEqual,
            TokenKind::Plus => TokenKind::Plus,
            TokenKind::Minus => TokenKind::Minus,
            TokenKind::Star => TokenKind::Star,
            TokenKind::Slash => TokenKind::Slash,
            TokenKind::String(s) => TokenKind::String(s.clone()),
            TokenKind::Integer(s) => TokenKind::Integer(s.clone()),
            TokenKind::Ident(s) => TokenKind::Ident(s.clone()),
            TokenKind::And => TokenKind::And,
            TokenKind::Do => TokenKind::Do,
            TokenKind::Else => TokenKind::Else,
            TokenKind::End => TokenKind::End,
            TokenKind::False => TokenKind::False,
            TokenKind::For => TokenKind::For,
            TokenKind::Fun => TokenKind::Fun,
            TokenKind::If => TokenKind::If,
            TokenKind::Let => TokenKind::Let,
            TokenKind::Or => TokenKind::Or,
            TokenKind::Return => TokenKind::Return,
            TokenKind::True => TokenKind::True,
            TokenKind::Type => TokenKind::Type,
            TokenKind::While => TokenKind::While,
            TokenKind::Error(s) => TokenKind::Error(s.clone()),
            TokenKind::EoF => TokenKind::EoF,
        }
    }
}

impl PartialEq for TokenKind {
    fn eq(&self, other: &Self) -> (r: bool) {
        match (self, other) {
            (TokenKind::String(a), TokenKind::String(b)) => *a == *b,
            (TokenKind::Integer(a), TokenKind::Integer(b)) => *a == *b,
            (TokenKind::Ident(a), TokenKind::Ident(b)) => *a == *b,
            (TokenKind::Error(a), TokenKind::Error(b)) => *a == *b,
            (TokenKind::OpenParen, TokenKind::OpenParen) => true,
            (TokenKind::CloseParen, TokenKind::CloseParen) => true,
            (TokenKind::OpenBracket, TokenKind::OpenBracket) => true,
            (TokenKind::CloseBracket, TokenKind::CloseBracket) => true,
            (TokenKind::Comma, TokenKind::Comma) => true,
            (TokenKind::Dot, TokenKind::Dot) => true,
            (TokenKind::Colon, TokenKind::Colon) => true,
            (TokenKind::Arrow, TokenKind::Arrow) => true,
            (TokenKind::Equal, TokenKind::Equal) => true,
            (TokenKind::EqualEqual, TokenKind::EqualEqual) => true,
            (TokenKind::Bang, TokenKind::Bang) => true,
            (TokenKind::BangEqual, TokenKind::BangEqual) => true,
            (TokenKind::Greater, TokenKind::Greater) => true,
            (TokenKind::GreaterEqual, TokenKind::GreaterEqual) => true,
            (TokenKind::Less, TokenKind::Less) => true,
            (TokenKind::LessEqual, TokenKind::LessEqual) => true,
            (TokenKind::Plus, TokenKind::Plus) => true,
            (TokenKind::Minus, TokenKind::Minus) => true,
            (TokenKind::Star, TokenKind::Star) => true,
            (TokenKind::Slash, TokenKind::Slash) => true,
            (TokenKind::And, TokenKind::And) => true,
            (TokenKind::Do, TokenKind::Do) => true,
            (TokenKind::Else, TokenKind::Else) => true,
            (TokenKind::End, TokenKind::End) => true,
            (TokenKind::False, TokenKind::False) => true,
            (TokenKind::For, TokenKind::For) => true,
            (TokenKind::Fun, TokenKind::Fun) => true,
            (TokenKind::If, TokenKind::If) => true,
            (TokenKind::Let, TokenKind::Let) => true,
            (TokenKind::Or, TokenKind::Or) => true,
            (TokenKind::Return, TokenKind::Return) => true,
            (TokenKind::True, TokenKind::True) => true,
            (TokenKind::Type, TokenKind::Type) => true,
            (TokenKind::While, TokenKind::While) => true,
            (TokenKind::EoF, TokenKind::EoF) => true,
            _ => false,
        }
    }
}

impl PartialEqSpecImpl for TokenKind {
    open spec fn obeys_eq_spec() -> bool {
        true
    }

    open spec fn eq_spec(&self, other: &Self) -> bool {
        self@ == other@
    }
}

/// The keyword written `name`, or the identifier `name` where it is none.
pub open spec fn keyword_or_ident(name: Seq<char>) -> Token {
    if name == "and"@ {
        Token::And
    } else if name == "do"@ {
        Token::Do
    } else if name == "else"@ {
        Token::Else
    } else if name == "end"@ {
        Token::End
    } else if name == "false"@ {
        Token::False
    } else if name == "for"@ {
        Token::For
    } else if name == "fun"@ {
        Token::Fun
    } else if name == "if"@ {
        Token::If
    } else if name == "let"@ {
        Token::Let
    } else if name == "or"@ {
        Token::Or
    } else if name == "return"@ {
        Token::Return
    } else if name == "true"@ {
        Token::True
    } else if name == "type"@ {
        Token::Type
    } else if name == "while"@ {
        Token::While
    } else {
        Token::Ident(name)
    }
}

/// `str::eq` of std: whether two string slices hold the same characters.
#[verifier::external_body]
pub(crate) fn same_text(a: &str, b: &str) -> (r: bool)
    ensures
        r == (a@ == b@),
{
    a == b
}

/// Looks `name` up in the keyword table.
pub fn get_keyword(name: &str) -> (kind: TokenKind)
    ensures
        kind@ == keyword_or_ident(name@),
{
    if same_text(name, "and") {
        TokenKind::And
    } else if same_text(name, "do") {
        TokenKind::Do
    } else if same_text(name, "else") {
        TokenKind::Else
    } else if same_text(name, "end") {
        TokenKind::End
    } else if same_text(name, "false") {
        TokenKind::False
    } else if same_text(name, "for") {
        TokenKind::For
    } else if same_text(name, "fun") {
        TokenKind::Fun
    } else if same_text(name, "if") {
        TokenKind::If
    } else if same_text(name, "let") {
        TokenKind::Let
    } else if same_text(name, "or") {
        TokenKind::Or
    } else if same_text(name, "return") {
        TokenKind::Return
    } else if same_text(name, "true") {
        TokenKind::True
    } else if same_text(name, "type") {
        TokenKind::Type
    } else if same_text(name, "while") {
        TokenKind::While
    } else {
        TokenKind::Ident(name.to_owned())
    }
}

} // verus!
