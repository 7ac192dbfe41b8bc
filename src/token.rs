use vstd::prelude::*;

verus! {

/// The closed set of lexical categories.
#[derive(Clone, Copy, Debug, PartialEq, Eq, Structural)]
pub enum TokenType {
    Illegal,
    Eof,
    Ident,
    Int,
    Assign,
    Plus,
    Minus,
    Bang,
    Asterisk,
    Slash,
    Lt,
    Gt,
    Eq,
    NotEq,
    Comma,
    Semicolon,
    LParen,
    RParen,
    LBrace,
    RBrace,
    Function,
    Let,
    True,
    False,
    If,
    Else,
    Return,
}

/// The name of a token category, as written in its declaration.
pub open spec fn token_type_name(k: TokenType) -> Seq<char> {
    match k {
        TokenType::Illegal => "Illegal"@,
        TokenType::Eof => "Eof"@,
        TokenType::Ident => "Ident"@,
        TokenType::Int => "Int"@,
        TokenType::Assign => "Assign"@,
        TokenType::Plus => "Plus"@,
        TokenType::Minus => "Minus"@,
        TokenType::Bang => "Bang"@,
        TokenType::Asterisk => "Asterisk"@,
        TokenType::Slash => "Slash"@,
        TokenType::Lt => "Lt"@,
        TokenType::Gt => "Gt"@,
        TokenType::Eq => "Eq"@,
        TokenType::NotEq => "NotEq"@,
        TokenType::Comma => "Comma"@,
        TokenType::Semicolon => "Semicolon"@,
        TokenType::LParen => "LParen"@,
        TokenType::RParen => "RParen"@,
        TokenType::LBrace => "LBrace"@,
        TokenType::RBrace => "RBrace"@,
        TokenType::Function => "Function"@,
        TokenType::Let => "Let"@,
        TokenType::True => "True"@,
        TokenType::False => "False"@,
        TokenType::If => "If"@,
        TokenType::Else => "Else"@,
        TokenType::Return => "Return"@,
    }
}

impl TokenType {
    /// The name of this category, as written in its declaration.
    pub fn name(&self) -> (r: &'static str)
        ensures
            r@ == token_type_name(*self),
    {
        match self {
            TokenType::Illegal => "Illegal",
            TokenType::Eof => "Eof",
            TokenType::Ident => "Ident",
            TokenType::Int => "Int",
            TokenType::Assign => "Assign",
            TokenType::Plus => "Plus",
            TokenType::Minus => "Minus",
            TokenType::Bang => "Bang",
            TokenType::Asterisk => "Asterisk",
            TokenType::Slash => "Slash",
            TokenType::Lt => "Lt",
            TokenType::Gt => "Gt",
            TokenType::Eq => "Eq",
            TokenType::NotEq => "NotEq",
            TokenType::Comma => "Comma",
            TokenType::Semicolon => "Semicolon",
            TokenType::LParen => "LParen",
            TokenType::RParen => "RParen",
            TokenType::LBrace => "LBrace",
            TokenType::RBrace => "RBrace",
            TokenType::Function => "Function",
            TokenType::Let => "Let",
            TokenType::True => "True",
            TokenType::False => "False",
            TokenType::If => "If",
            TokenType::Else => "Else",
            TokenType::Return => "Return",
        }
    }
}

/// One lexical unit. Identifiers and integer literals carry their source text;
/// every other token is fully described by its variant.
#[derive(Clone, Debug, PartialEq, Eq)]
pub enum Token {
    Illegal,
    Eof,
    Ident(String),
    Int(String),
    Assign,
    Plus,
    Minus,
    Bang,
    Asterisk,
    Slash,
    Lt,
    Gt,
    Eq,
    NotEq,
    Comma,
    Semicolon,
    LParen,
    RParen,
    LBrace,
    RBrace,
    Function,
    Let,
    True,
    False,
    If,
    Else,
    Return,
}

impl Token {
    pub open spec fn spec_kind(&self) -> TokenType {
        match self {
            Token::Illegal => TokenType::Illegal,
            Token::Eof => TokenType::Eof,
            Token::Ident(_) => TokenType::Ident,
            Token::Int(_) => TokenType::Int,
            Token::Assign => TokenType::Assign,
            Token::Plus => TokenType::Plus,
            Token::Minus => TokenType::Minus,
            Token::Bang => TokenType::Bang,
            Token::Asterisk => TokenType::Asterisk,
            Token::Slash => TokenType::Slash,
            Token::Lt => TokenType::Lt,
            Token::Gt => TokenType::Gt,
            Token::Eq => TokenType::Eq,
            Token::NotEq => TokenType::NotEq,
            Token::Comma => TokenType::Comma,
            Token::Semicolon => TokenType::Semicolon,
            Token::LParen => TokenType::LParen,
            Token::RParen => TokenType::RParen,
            Token::LBrace => TokenType::LBrace,
            Token::RBrace => TokenType::RBrace,
            Token::Function => TokenType::Function,
            Token::Let => TokenType::Let,
            Token::True => TokenType::True,
            Token::False => TokenType::False,
            Token::If => TokenType::If,
            Token::Else => TokenType::Else,
            Token::Return => TokenType::Return,
        }
    }

    /// The source text an identifier or integer token carries; empty for the others.
    pub open spec fn spec_text(&self) -> Seq<char> {
        match self {
            Token::Ident(s) => s@,
            Token::Int(s) => s@,
            _ => Seq::empty(),
        }
    }

    /// A token of category `kind`; identifiers and integers take `literal` as
    /// their text, the other categories drop it.
    pub fn new(kind: TokenType, literal: String) -> (t: Token)
        ensures
            t.spec_kind() == kind,
            t.spec_text() == (if kind == TokenType::Ident || kind == TokenType::Int {
                literal@
            } else {
                Seq::empty()
            }),
    {
        match kind {
            TokenType::Illegal => Token::Illegal,
            TokenType::Eof => Token::Eof,
            TokenType::Ident => Token::Ident(literal),
            TokenType::Int => Token::Int(literal),
            TokenType::Assign => Token::Assign,
            TokenType::Plus => Token::Plus,
            TokenType::Minus => Token::Minus,
            TokenType::Bang => Token::Bang,
            TokenType::Asterisk => Token::Asterisk,
            TokenType::Slash => Token::Slash,
            TokenType::Lt => Token::Lt,
            TokenType::Gt => Token::Gt,
            TokenType::Eq => Token::Eq,
            TokenType::NotEq => Token::NotEq,
            TokenType::Comma => Token::Comma,
            TokenType::Semicolon => Token::Semicolon,
            TokenType::LParen => Token::LParen,
            TokenType::RParen => Token::RParen,
            TokenType::LBrace => Token::LBrace,
            TokenType::RBrace => Token::RBrace,
            TokenType::Function => Token::Function,
            TokenType::Let => Token::Let,
            TokenType::True => Token::True,
            TokenType::False => Token::False,
            TokenType::If => Token::If,
            TokenType::Else => Token::Else,
            TokenType::Return => Token::Return,
        }
    }

    /// The category of this token.
    #[verifier::when_used_as_spec(spec_kind)]
    pub fn kind(&self) -> (r: TokenType)
        ensures
            r == self.spec_kind(),
    {
        match self {
            Token::Illegal => TokenType::Illegal,
            Token::Eof => TokenType::Eof,
            Token::Ident(_) => TokenType::Ident,
            Token::Int(_) => TokenType::Int,
            Token::Assign => TokenType::Assign,
            Token::Plus => TokenType::Plus,
            Token::Minus => TokenType::Minus,
            Token::Bang => TokenType::Bang,
            Token::Asterisk => TokenType::Asterisk,
            Token::Slash => TokenType::Slash,
            Token::Lt => TokenType::Lt,
            Token::Gt => TokenType::Gt,
            Token::Eq => TokenType::Eq,
            Token::NotEq => TokenType::NotEq,
            Token::Comma => TokenType::Comma,
            Token::Semicolon => TokenType::Semicolon,
            Token::LParen => TokenType::LParen,
            Token::RParen => TokenType::RParen,
            Token::LBrace => TokenType::LBrace,
            Token::RBrace => TokenType::RBrace,
            Token::Function => TokenType::Function,
            Token::Let => TokenType::Let,
            Token::True => TokenType::True,
            Token::False => TokenType::False,
            Token::If => TokenType::If,
            Token::Else => TokenType::Else,
            Token::Return => TokenType::Return,
        }
    }
}

/// The category of a word made of identifier characters: one of the keywords
/// `fn let true false if else return`, or else a plain identifier.
pub open spec fn keyword_kind(w: Seq<u8>) -> TokenType {
    if w == seq!['f' as u8, 'n' as u8] {
        TokenType::Function
    } else if w == seq!['l' as u8, 'e' as u8, 't' as u8] {
        TokenType::Let
    } else if w == seq!['t' as u8, 'r' as u8, 'u' as u8, 'e' as u8] {
        TokenType::True
    } else if w == seq!['f' as u8, 'a' as u8, 'l' as u8, 's' as u8, 'e' as u8] {
        TokenType::False
    } else if w == seq!['i' as u8, 'f' as u8] {
        TokenType::If
    } else if w == seq!['e' as u8, 'l' as u8, 's' as u8, 'e' as u8] {
        TokenType::Else
    } else if w == seq!['r' as u8, 'e' as u8, 't' as u8, 'u' as u8, 'r' as u8, 'n' as u8] {
        TokenType::Return
    } else {
        TokenType::Ident
    }
}

/// Looks the word `bytes[start..end]` up in the keyword table.
pub fn lookup_ident(bytes: &[u8], start: usize, end: usize) -> (r: TokenType)
    requires
        start <= end <= bytes@.len(),
    ensures
        r == keyword_kind(bytes@.subrange(start as int, end as int)),
{
    let ghost w = bytes@.subrange(start as int, end as int);
    let n = end - start;
    if n == 2 && bytes[start] == 'f' as u8 && bytes[start + 1] == 'n' as u8 {
        assert(w =~= seq!['f' as u8, 'n' as u8]);
        TokenType::Function
    } else if n == 3 && bytes[start] == 'l' as u8 && bytes[start + 1] == 'e' as u8 && bytes[start + 2]
        == 't' as u8 {
        assert(w =~= seq!['l' as u8, 'e' as u8, 't' as u8]);
        TokenType::Let
    } else if n == 4 && bytes[start] == 't' as u8 && bytes[start + 1] == 'r' as u8 && bytes[start + 2]
        == 'u' as u8 && bytes[start + 3] == 'e' as u8 {
        assert(w =~= seq!['t' as u8, 'r' as u8, 'u' as u8, 'e' as u8]);
        TokenType::True
    } else if n == 5 && bytes[start] == 'f' as u8 && bytes[start + 1] == 'a' as u8 && bytes[start + 2]
        == 'l' as u8 && bytes[start + 3] == 's' as u8 && bytes[start + 4] == 'e' as u8 {
        assert(w =~= seq!['f' as u8, 'a' as u8, 'l' as u8, 's' as u8, 'e' as u8]);
        TokenType::False
    } else if n == 2 && bytes[start] == 'i' as u8 && bytes[start + 1] == 'f' as u8 {
        assert(w =~= seq!['i' as u8, 'f' as u8]);
        TokenType::If
    } else if n == 4 && bytes[start] == 'e' as u8 && bytes[start + 1] == 'l' as u8 && bytes[start + 2]
        == 's' as u8 && bytes[start + 3] == 'e' as u8 {
        assert(w =~= seq!['e' as u8, 'l' as u8, 's' as u8, 'e' as u8]);
        TokenType::Else
    } else if n == 6 && bytes[start] == 'r' as u8 && bytes[start + 1] == 'e' as u8 && bytes[start + 2]
        == 't' as u8 && bytes[start + 3] == 'u' as u8 && bytes[start + 4] == 'r' as u8 && bytes[start + 5]
        == 'n' as u8 {
        assert(w =~= seq!['r' as u8, 'e' as u8, 't' as u8, 'u' as u8, 'r' as u8, 'n' as u8]);
        TokenType::Return
    } else {
        TokenType::Ident
    }
}

} // verus!
