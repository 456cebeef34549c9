//! Lexical tokens and their mathematical model.

use vstd::prelude::*;
use vstd::std_specs::cmp::PartialEqSpecImpl;

verus! {

/// The kind of a token. Literals carry their decoded value, identifiers
/// their name. A number is the bit pattern of a double.
#[derive(Debug)]
pub enum TokenType {
    LeftParen,
    RightParen,
    LeftBrace,
    RightBrace,
    Comma,
    Dot,
    Minus,
    Plus,
    Semicolon,
    Slash,
    Star,
    Bang,
    BangEqual,
    Equal,
    EqualEqual,
    Greater,
    GreaterEqual,
    Less,
    LessEqual,
    Identifier(String),
    String(String),
    Number(u64),
    And,
    Class,
    Else,
    False,
    Fun,
    For,
    If,
    Nil,
    Or,
    Print,
    Return,
    Super,
    This,
    True,
    Var,
    While,
    EOF,
}

/// Model of a [`TokenType`]: the same variants over sequences of characters.
pub enum Kind {
    LeftParen,
    RightParen,
    LeftBrace,
    RightBrace,
    Comma,
    Dot,
    Minus,
    Plus,
    Semicolon,
    Slash,
    Star,
    Bang,
    BangEqual,
    Equal,
    EqualEqual,
    Greater,
    GreaterEqual,
    Less,
    LessEqual,
    Identifier(Seq<char>),
    String(Seq<char>),
    Number(u64),
    And,
    Class,
    Else,
    False,
    Fun,
    For,
    If,
    Nil,
    Or,
    Print,
    Return,
    Super,
    This,
    True,
    Var,
    While,
    EOF,
}

impl Kind {
    /// `-` and `!`, the two prefix operators.
    pub open spec fn is_unary_operator(self) -> bool {
        self is Minus || self is Bang
    }

    /// `+ - * /`.
    pub open spec fn is_arithmetic_operator(self) -> bool {
        self is Plus || self is Minus || self is Star || self is Slash
    }

    /// `< <= > >=`.
    pub open spec fn is_comparison_operator(self) -> bool {
        self is Less || self is LessEqual || self is Greater || self is GreaterEqual
    }

    /// The ten infix operators that are neither `and` nor `or`.
    pub open spec fn is_binary_operator(self) -> bool {
        self.is_arithmetic_operator() || self.is_comparison_operator() || self is EqualEqual
            || self is BangEqual
    }
}

impl TokenType {
    /// Whether this kind is a prefix operator.
    pub fn is_unary_operator(&self) -> (r: bool)
        ensures
            r == self@.is_unary_operator(),
    {
        match self {
            TokenType::Minus | TokenType::Bang => true,
            _ => false,
        }
    }

    /// Whether this kind is an infix operator other than `and` and `or`.
    pub fn is_binary_operator(&self) -> (r: bool)
        ensures
            r == self@.is_binary_operator(),
    {
        match self {
            TokenType::Plus | TokenType::Minus | TokenType::Star | TokenType::Slash => true,
            TokenType::Less | TokenType::LessEqual | TokenType::Greater
            | TokenType::GreaterEqual => true,
            TokenType::EqualEqual | TokenType::BangEqual => true,
            _ => false,
        }
    }
}

impl View for TokenType {
    type V = Kind;

    open spec fn view(&self) -> Kind {
        match self {
            TokenType::LeftParen => Kind::LeftParen,
            TokenType::RightParen => Kind::RightParen,
            TokenType::LeftBrace => Kind::LeftBrace,
            TokenType::RightBrace => Kind::RightBrace,
            TokenType::Comma => Kind::Comma,
            TokenType::Dot => Kind::Dot,
            TokenType::Minus => Kind::Minus,
            TokenType::Plus => Kind::Plus,
            TokenType::Semicolon => Kind::Semicolon,
            TokenType::Slash => Kind::Slash,
            TokenType::Star => Kind::Star,
            TokenType::Bang => Kind::Bang,
            TokenType::BangEqual => Kind::BangEqual,
            TokenType::Equal => Kind::Equal,
            TokenType::EqualEqual => Kind::EqualEqual,
            TokenType::Greater => Kind::Greater,
            TokenType::GreaterEqual => Kind::GreaterEqual,
            TokenType::Less => Kind::Less,
            TokenType::LessEqual => Kind::LessEqual,
            TokenType::Identifier(name) => Kind::Identifier(name@),
            TokenType::String(value) => Kind::String(value@),
            TokenType::Number(bits) => Kind::Number(*bits),
            TokenType::And => Kind::And,
            TokenType::Class => Kind::Class,
            TokenType::Else => Kind::Else,
            TokenType::False => Kind::False,
            TokenType::Fun => Kind::Fun,
            TokenType::For => Kind::For,
            TokenType::If => Kind::If,
            TokenType::Nil => Kind::Nil,
            TokenType::Or => Kind::Or,
            TokenType::Print => Kind::Print,
            TokenType::Return => Kind::Return,
            TokenType::Super => Kind::Super,
            TokenType::This => Kind::This,
            TokenType::True => Kind::True,
            TokenType::Var => Kind::Var,
            TokenType::While => Kind::While,
            TokenType::EOF => Kind::EOF,
        }
    }
}

impl Clone for TokenType {
    fn clone(&self) -> (r: Self)
        ensures
            r@ == self@,
    {
        match self {
            TokenType::LeftParen => TokenType::LeftParen,
            TokenType::RightParen => TokenType::RightParen,
            TokenType::LeftBrace => TokenType::LeftBrace,
            TokenType::RightBrace => TokenType::RightBrace,
            TokenType::Comma => TokenType::Comma,
            TokenType::Dot => TokenType::Dot,
            TokenType::Minus => TokenType::Minus,
            TokenType::Plus => TokenType::Plus,
            TokenType::Semicolon => TokenType::Semicolon,
            TokenType::Slash => TokenType::Slash,
            TokenType::Star => TokenType::Star,
            TokenType::Bang => TokenType::Bang,
            TokenType::BangEqual => TokenType::BangEqual,
            TokenType::Equal => TokenType::Equal,
            TokenType::EqualEqual => TokenType::EqualEqual,
            TokenType::Greater => TokenType::Greater,
            TokenType::GreaterEqual => TokenType::GreaterEqual,
            TokenType::Less => TokenType::Less,
            TokenType::LessEqual => TokenType::LessEqual,
            TokenType::Identifier(name) => TokenType::Identifier(name.clone()),
            TokenType::String(value) => TokenType::String(value.clone()),
            TokenType::Number(bits) => TokenType::Number(*bits),
            TokenType::And => TokenType::And,
            TokenType::Class => TokenType::Class,
            TokenType::Else => TokenType::Else,
            TokenType::False => TokenType::False,
            TokenType::Fun => TokenType::Fun,
            TokenType::For => TokenType::For,
            TokenType::If => TokenType::If,
            TokenType::Nil => TokenType::Nil,
            TokenType::Or => TokenType::Or,
            TokenType::Print => TokenType::Print,
            TokenType::Return => TokenType::Return,
            TokenType::Super => TokenType::Super,
            TokenType::This => TokenType::This,
            TokenType::True => TokenType::True,
            TokenType::Var => TokenType::Var,
            TokenType::While => TokenType::While,
            TokenType::EOF => TokenType::EOF,
        }
    }
}

impl PartialEq for TokenType {
    fn eq(&self, other: &Self) -> (r: bool) {
        match (self, other) {
            (TokenType::LeftParen, TokenType::LeftParen) => true,
            (TokenType::RightParen, TokenType::RightParen) => true,
            (TokenType::LeftBrace, TokenType::LeftBrace) => true,
            (TokenType::RightBrace, TokenType::RightBrace) => true,
            (TokenType::Comma, TokenType::Comma) => true,
            (TokenType::Dot, TokenType::Dot) => true,
            (TokenType::Minus, TokenType::Minus) => true,
            (TokenType::Plus, TokenType::Plus) => true,
            (TokenType::Semicolon, TokenType::Semicolon) => true,
            (TokenType::Slash, TokenType::Slash) => true,
            (TokenType::Star, TokenType::Star) => true,
            (TokenType::Bang, TokenType::Bang) => true,
            (TokenType::BangEqual, TokenType::BangEqual) => true,
            (TokenType::Equal, TokenType::Equal) => true,
            (TokenType::EqualEqual, TokenType::EqualEqual) => true,
            (TokenType::Greater, TokenType::Greater) => true,
            (TokenType::GreaterEqual, TokenType::GreaterEqual) => true,
            (TokenType::Less, TokenType::Less) => true,
            (TokenType::LessEqual, TokenType::LessEqual) => true,
            (TokenType::Identifier(a), TokenType::Identifier(b)) => *a == *b,
            (TokenType::String(a), TokenType::String(b)) => *a == *b,
            (TokenType::Number(a), TokenType::Number(b)) => *a == *b,
            (TokenType::And, TokenType::And) => true,
            (TokenType::Class, TokenType::Class) => true,
            (TokenType::Else, TokenType::Else) => true,
            (TokenType::False, TokenType::False) => true,
            (TokenType::Fun, TokenType::Fun) => true,
            (TokenType::For, TokenType::For) => true,
            (TokenType::If, TokenType::If) => true,
            (TokenType::Nil, TokenType::Nil) => true,
            (TokenType::Or, TokenType::Or) => true,
            (TokenType::Print, TokenType::Print) => true,
            (TokenType::Return, TokenType::Return) => true,
            (TokenType::Super, TokenType::Super) => true,
            (TokenType::This, TokenType::This) => true,
            (TokenType::True, TokenType::True) => true,
            (TokenType::Var, TokenType::Var) => true,
            (TokenType::While, TokenType::While) => true,
            (TokenType::EOF, TokenType::EOF) => true,
            _ => false,
        }
    }
}

impl PartialEqSpecImpl for TokenType {
    open spec fn obeys_eq_spec() -> bool {
        true
    }

    open spec fn eq_spec(&self, other: &Self) -> bool {
        self@ == other@
    }
}

/// One lexical token: its kind, the text it was read from and the line
/// (counted from 1) on which it stands.
#[derive(Debug)]
pub struct Token {
    pub token_type: TokenType,
    pub lexeme: String,
    pub line: usize,
}

/// Model of a [`Token`].
pub struct SpecToken {
    pub kind: Kind,
    pub lexeme: Seq<char>,
    pub line: usize,
}

impl View for Token {
    type V = SpecToken;

    open spec fn view(&self) -> SpecToken {
        SpecToken { kind: self.token_type@, lexeme: self.lexeme@, line: self.line }
    }
}

impl Clone for Token {
    fn clone(&self) -> (r: Self)
        ensures
            r@ == self@,
    {
        Token { token_type: self.token_type.clone(), lexeme: self.lexeme.clone(), line: self.line }
    }
}

impl Token {
    /// Builds a token from its parts.
    pub fn new(token_type: TokenType, lexeme: String, line: usize) -> (r: Self)
        ensures
            r@ == (SpecToken { kind: token_type@, lexeme: lexeme@, line }),
    {
        Token { token_type, lexeme, line }
    }

    /// The kind that a word of letters, digits and underscores stands for:
    /// one of the sixteen reserved words, or else an identifier of that name.
    pub open spec fn keyword_or_identifier(word: Seq<char>) -> Kind {
        if word == "and"@ {
            Kind::And
        } else if word == "class"@ {
            Kind::Class
        } else if word == "else"@ {
            Kind::Else
        } else if word == "false"@ {
            Kind::False
        } else if word == "for"@ {
            Kind::For
        } else if word == "fun"@ {
            Kind::Fun
        } else if word == "if"@ {
            Kind::If
        } else if word == "nil"@ {
            Kind::Nil
        } else if word == "or"@ {
            Kind::Or
        } else if word == "print"@ {
            Kind::Print
        } else if word == "return"@ {
            Kind::Return
        } else if word == "super"@ {
            Kind::Super
        } else if word == "this"@ {
            Kind::This
        } else if word == "true"@ {
            Kind::True
        } else if word == "var"@ {
            Kind::Var
        } else if word == "while"@ {
            Kind::While
        } else {
            Kind::Identifier(word)
        }
    }

    /// Tells a reserved word from an identifier.
    pub fn match_keyword(word: &str) -> (r: TokenType)
        ensures
            r@ == Self::keyword_or_identifier(word@),
    {
        let owned = String::from_str(word);
        if owned == String::from_str("and") {
            TokenType::And
        } else if owned == String::from_str("class") {
            TokenType::Class
        } else if owned == String::from_str("else") {
            TokenType::Else
        } else if owned == String::from_str("false") {
            TokenType::False
        } else if owned == String::from_str("for") {
            TokenType::For
        } else if owned == String::from_str("fun") {
            TokenType::Fun
        } else if owned == String::from_str("if") {
            TokenType::If
        } else if owned == String::from_str("nil") {
            TokenType::Nil
        } else if owned == String::from_str("or") {
            TokenType::Or
        } else if owned == String::from_str("print") {
            TokenType::Print
        } else if owned == String::from_str("return") {
            TokenType::Return
        } else if owned == String::from_str("super") {
            TokenType::Super
        } else if owned == String::from_str("this") {
            TokenType::This
        } else if owned == String::from_str("true") {
            TokenType::True
        } else if owned == String::from_str("var") {
            TokenType::Var
        } else if owned == String::from_str("while") {
            TokenType::While
        } else {
            TokenType::Identifier(owned)
        }
    }
}

/// Whether a token sequence is a stream that a parser can read: it is not
/// empty and ends with the end marker.
pub open spec fn is_stream(tokens: Seq<SpecToken>) -> bool {
    tokens.len() > 0 && tokens.last().kind is EOF
}

/// The models of a vector of tokens, in order.
pub open spec fn tokens_model(tokens: Vec<Token>) -> Seq<SpecToken> {
    Seq::new(tokens@.len(), |i: int| tokens[i]@)
}

/// Copies a vector of tokens.
pub fn copy_tokens(tokens: &Vec<Token>) -> (r: Vec<Token>)
    ensures
        tokens_model(r) == tokens_model(*tokens),
{
    let mut out: Vec<Token> = Vec::new();
    let mut i: usize = 0;
    while i < tokens.len()
        invariant
            i <= tokens.len(),
            out.len() == i,
            forall|k: int| 0 <= k < i ==> out[k]@ == tokens[k]@,
        decreases tokens.len() - i,
    {
        out.push(tokens[i].clone());
        i += 1;
    }
    assert(tokens_model(out) =~= tokens_model(*tokens));
    out
}

} // verus!
