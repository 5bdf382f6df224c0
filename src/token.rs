use vstd::prelude::*;

verus! {

/// One lexical unit of the source text.
///
/// A float literal carries its numeral exactly as written (digits, one `.`,
/// digits); turning it into a machine float is left to the caller.
#[derive(Debug, PartialEq)]
pub enum Token {
    Fn,
    Var,
    Struct,
    If,
    Else,
    While,
    For,
    Return,
    Identifier(String),
    IntegerLiteral(i32),
    FloatLiteral(String),
    CharLiteral(char),
    StringLiteral(String),
    LParen,
    RParen,
    LBrace,
    RBrace,
    LBracket,
    RBracket,
    Comma,
    Colon,
    Semicolon,
    Plus,
    Minus,
    Asterisk,
    Slash,
    Percent,
    Equal,
    EqualEqual,
    Exclamation,
    ExclamationEqual,
    Less,
    LessEqual,
    Greater,
    GreaterEqual,
    AndAnd,
    OrOr,
    Question,
    Dot,
}

/// The mathematical value of a [`Token`]: text payloads become character
/// sequences, every other variant stands for itself.
pub ghost enum TokenView {
    Fn,
    Var,
    Struct,
    If,
    Else,
    While,
    For,
    Return,
    Identifier(Seq<char>),
    IntegerLiteral(i32),
    FloatLiteral(Seq<char>),
    CharLiteral(char),
    StringLiteral(Seq<char>),
    LParen,
    RParen,
    LBrace,
    RBrace,
    LBracket,
    RBracket,
    Comma,
    Colon,
    Semicolon,
    Plus,
    Minus,
    Asterisk,
    Slash,
    Percent,
    Equal,
    EqualEqual,
    Exclamation,
    ExclamationEqual,
    Less,
    LessEqual,
    Greater,
    GreaterEqual,
    AndAnd,
    OrOr,
    Question,
    Dot,
}

impl View for Token {
    type V = TokenView;

    open spec fn view(&self) -> TokenView {
        match self {
            Token::Fn => TokenView::Fn,
            Token::Var => TokenView::Var,
            Token::Struct => TokenView::Struct,
            Token::If => TokenView::If,
            Token::Else => TokenView::Else,
            Token::While => TokenView::While,
            Token::For => TokenView::For,
            Token::Return => TokenView::Return,
            Token::Identifier(s) => TokenView::Identifier(s@),
            Token::IntegerLiteral(v) => TokenView::IntegerLiteral(*v),
            Token::FloatLiteral(s) => TokenView::FloatLiteral(s@),
            Token::CharLiteral(c) => TokenView::CharLiteral(*c),
            Token::StringLiteral(s) => TokenView::StringLiteral(s@),
            Token::LParen => TokenView::LParen,
            Token::RParen => TokenView::RParen,
            Token::LBrace => TokenView::LBrace,
            Token::RBrace => TokenView::RBrace,
            Token::LBracket => TokenView::LBracket,
            Token::RBracket => TokenView::RBracket,
            Token::Comma => TokenView::Comma,
            Token::Colon => TokenView::Colon,
            Token::Semicolon => TokenView::Semicolon,
            Token::Plus => TokenView::Plus,
            Token::Minus => TokenView::Minus,
            Token::Asterisk => TokenView::Asterisk,
            Token::Slash => TokenView::Slash,
            Token::Percent => TokenView::Percent,
            Token::Equal => TokenView::Equal,
            Token::EqualEqual => TokenView::EqualEqual,
            Token::Exclamation => TokenView::Exclamation,
            Token::ExclamationEqual => TokenView::ExclamationEqual,
            Token::Less => TokenView::Less,
            Token::LessEqual => TokenView::LessEqual,
            Token::Greater => TokenView::Greater,
            Token::GreaterEqual => TokenView::GreaterEqual,
            Token::AndAnd => TokenView::AndAnd,
            Token::OrOr => TokenView::OrOr,
            Token::Question => TokenView::Question,
            Token::Dot => TokenView::Dot,
        }
    }
}

/// The single kind of failure: the first invalid input aborts the whole scan.
#[derive(Debug, Clone, Copy, PartialEq, Eq, Structural)]
pub enum LexicalError {
    /// A character that starts no token, or a `&` or `|` without its twin.
    UnexpectedCharacter(char),
    /// A `'` not followed by exactly one character and a closing `'`.
    InvalidCharacterLiteral,
    /// A numeral without `.` whose value does not fit in an `i32`.
    IntegerOutOfRange,
    /// A numeral with more than one `.`.
    MalformedNumber,
}

/// The human-readable description of an error.
pub open spec fn error_message(e: LexicalError) -> Seq<char> {
    match e {
        LexicalError::UnexpectedCharacter(c) => "unexpected character: "@.push(c),
        LexicalError::InvalidCharacterLiteral => "invalid character literal"@,
        LexicalError::IntegerOutOfRange => "integer literal out of range"@,
        LexicalError::MalformedNumber => "malformed number"@,
    }
}

impl LexicalError {
    /// A human-readable description of the error, naming the offending
    /// character where there is one.
    pub fn message(&self) -> (r: String)
        ensures
            r@ == error_message(*self),
    {
        match self {
            LexicalError::UnexpectedCharacter(c) => {
                let mut m = String::from_str("unexpected character: ");
                m.push(*c);
                m
            },
            LexicalError::InvalidCharacterLiteral => String::from_str("invalid character literal"),
            LexicalError::IntegerOutOfRange => String::from_str("integer literal out of range"),
            LexicalError::MalformedNumber => String::from_str("malformed number"),
        }
    }
}

/// The mathematical value of one scanned token, or its error.
pub open spec fn token_result_view(r: Result<Token, LexicalError>) -> Result<TokenView, LexicalError> {
    match r {
        Ok(t) => Ok(t@),
        Err(e) => Err(e),
    }
}

/// The mathematical value of a scanned token sequence, or its error.
pub open spec fn tokens_result_view(r: Result<Vec<Token>, LexicalError>) -> Result<
    Seq<TokenView>,
    LexicalError,
> {
    match r {
        Ok(ts) => Ok(ts@.map_values(|t: Token| t@)),
        Err(e) => Err(e),
    }
}

} // verus!
