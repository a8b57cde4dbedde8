//! The lexical units of the language.

use vstd::prelude::*;

verus! {

/// One lexical unit. Identifiers and numerals carry their text as written;
/// a numeral is only delimited here, and read by the parser.
#[derive(Debug, PartialEq)]
pub enum Token {
    Illegal,
    Eof,
    // Literals
    Identifier(String),
    Int(String),
    Float(String),
    // Operators
    Assign,
    Plus,
    Minus,
    Bang,
    Asterisk,
    Slash,
    Equal,
    NotEqual,
    LessThan,
    GreaterThan,
    // Delimiters
    Comma,
    Semicolon,
    LeftParen,
    RightParen,
    LeftBrackets,
    RightBrackets,
    // Keywords
    Function,
    Let,
    True,
    False,
    If,
    Else,
    Return,
}

/// The mathematical value of a [`Token`]: the same variants over sequences of
/// characters.
pub enum TokenModel {
    Illegal,
    Eof,
    Identifier(Seq<char>),
    Int(Seq<char>),
    Float(Seq<char>),
    Assign,
    Plus,
    Minus,
    Bang,
    Asterisk,
    Slash,
    Equal,
    NotEqual,
    LessThan,
    GreaterThan,
    Comma,
    Semicolon,
    LeftParen,
    RightParen,
    LeftBrackets,
    RightBrackets,
    Function,
    Let,
    True,
    False,
    If,
    Else,
    Return,
}

impl View for Token {
    type V = TokenModel;

    open spec fn view(&self) -> TokenModel {
        match self {
            Token::Illegal => TokenModel::Illegal,
            Token::Eof => TokenModel::Eof,
            Token::Identifier(text) => TokenModel::Identifier(text@),
            Token::Int(text) => TokenModel::Int(text@),
            Token::Float(text) => TokenModel::Float(text@),
            Token::Assign => TokenModel::Assign,
            Token::Plus => TokenModel::Plus,
            Token::Minus => TokenModel::Minus,
            Token::Bang => TokenModel::Bang,
            Token::Asterisk => TokenModel::Asterisk,
            Token::Slash => TokenModel::Slash,
            Token::Equal => TokenModel::Equal,
            Token::NotEqual => TokenModel::NotEqual,
            Token::LessThan => TokenModel::LessThan,
            Token::GreaterThan => TokenModel::GreaterThan,
            Token::Comma => TokenModel::Comma,
            Token::Semicolon => TokenModel::Semicolon,
            Token::LeftParen => TokenModel::LeftParen,
            Token::RightParen => TokenModel::RightParen,
            Token::LeftBrackets => TokenModel::LeftBrackets,
            Token::RightBrackets => TokenModel::RightBrackets,
            Token::Function => TokenModel::Function,
            Token::Let => TokenModel::Let,
            Token::True => TokenModel::True,
            Token::False => TokenModel::False,
            Token::If => TokenModel::If,
            Token::Else => TokenModel::Else,
            Token::Return => TokenModel::Return,
        }
    }
}

/// The views of a sequence of tokens, one by one.
pub open spec fn token_models(tokens: Seq<Token>) -> Seq<TokenModel> {
    Seq::new(tokens.len(), |i: int| tokens[i]@)
}

/// The reserved word that `text` spells, if it spells one.
pub open spec fn keyword(text: Seq<char>) -> Option<TokenModel> {
    if text == "func"@ {
        Some(TokenModel::Function)
    } else if text == "let"@ {
        Some(TokenModel::Let)
    } else if text == "true"@ {
        Some(TokenModel::True)
    } else if text == "false"@ {
        Some(TokenModel::False)
    } else if text == "if"@ {
        Some(TokenModel::If)
    } else if text == "else"@ {
        Some(TokenModel::Else)
    } else if text == "return"@ {
        Some(TokenModel::Return)
    } else {
        None
    }
}

/// How a token is named in a parse error: the variant's name, followed for
/// identifiers and numerals by the text in parentheses and double quotes.
pub open spec fn token_name(token: TokenModel) -> Seq<char> {
    match token {
        TokenModel::Illegal => "Illegal"@,
        TokenModel::Eof => "Eof"@,
        TokenModel::Identifier(text) => "Identifier(\""@ + text + "\")"@,
        TokenModel::Int(text) => "Int(\""@ + text + "\")"@,
        TokenModel::Float(text) => "Float(\""@ + text + "\")"@,
        TokenModel::Assign => "Assign"@,
        TokenModel::Plus => "Plus"@,
        TokenModel::Minus => "Minus"@,
        TokenModel::Bang => "Bang"@,
        TokenModel::Asterisk => "Asterisk"@,
        TokenModel::Slash => "Slash"@,
        TokenModel::Equal => "Equal"@,
        TokenModel::NotEqual => "NotEqual"@,
        TokenModel::LessThan => "LessThan"@,
        TokenModel::GreaterThan => "GreaterThan"@,
        TokenModel::Comma => "Comma"@,
        TokenModel::Semicolon => "Semicolon"@,
        TokenModel::LeftParen => "LeftParen"@,
        TokenModel::RightParen => "RightParen"@,
        TokenModel::LeftBrackets => "LeftBrackets"@,
        TokenModel::RightBrackets => "RightBrackets"@,
        TokenModel::Function => "Function"@,
        TokenModel::Let => "Let"@,
        TokenModel::True => "True"@,
        TokenModel::False => "False"@,
        TokenModel::If => "If"@,
        TokenModel::Else => "Else"@,
        TokenModel::Return => "Return"@,
    }
}

impl Clone for Token {
    fn clone(&self) -> (r: Token)
        ensures
            r@ == self@,
    {
        match self {
            Token::Illegal => Token::Illegal,
            Token::Eof => Token::Eof,
            Token::Identifier(text) => Token::Identifier(text.clone()),
            Token::Int(text) => Token::Int(text.clone()),
            Token::Float(text) => Token::Float(text.clone()),
            Token::Assign => Token::Assign,
            Token::Plus => Token::Plus,
            Token::Minus => Token::Minus,
            Token::Bang => Token::Bang,
            Token::Asterisk => Token::Asterisk,
            Token::Slash => Token::Slash,
            Token::Equal => Token::Equal,
            Token::NotEqual => Token::NotEqual,
            Token::LessThan => Token::LessThan,
            Token::GreaterThan => Token::GreaterThan,
            Token::Comma => Token::Comma,
            Token::Semicolon => Token::Semicolon,
            Token::LeftParen => Token::LeftParen,
            Token::RightParen => Token::RightParen,
            Token::LeftBrackets => Token::LeftBrackets,
            Token::RightBrackets => Token::RightBrackets,
            Token::Function => Token::Function,
            Token::Let => Token::Let,
            Token::True => Token::True,
            Token::False => Token::False,
            Token::If => Token::If,
            Token::Else => Token::Else,
            Token::Return => Token::Return,
        }
    }
}

impl Token {
    /// Whether two tokens are the same lexical unit.
    pub fn same(&self, other: &Token) -> (r: bool)
        ensures
            r == (self@ == other@),
    {
        match (self, other) {
            (Token::Illegal, Token::Illegal) => true,
            (Token::Eof, Token::Eof) => true,
            (Token::Identifier(a), Token::Identifier(b)) => {
                let equal = *a == *b;
                equal
            },
            (Token::Int(a), Token::Int(b)) => {
                let equal = *a == *b;
                equal
            },
            (Token::Float(a), Token::Float(b)) => {
                let equal = *a == *b;
                equal
            },
            (Token::Assign, Token::Assign) => true,
            (Token::Plus, Token::Plus) => true,
            (Token::Minus, Token::Minus) => true,
            (Token::Bang, Token::Bang) => true,
            (Token::Asterisk, Token::Asterisk) => true,
            (Token::Slash, Token::Slash) => true,
            (Token::Equal, Token::Equal) => true,
            (Token::NotEqual, Token::NotEqual) => true,
            (Token::LessThan, Token::LessThan) => true,
            (Token::GreaterThan, Token::GreaterThan) => true,
            (Token::Comma, Token::Comma) => true,
            (Token::Semicolon, Token::Semicolon) => true,
            (Token::LeftParen, Token::LeftParen) => true,
            (Token::RightParen, Token::RightParen) => true,
            (Token::LeftBrackets, Token::LeftBrackets) => true,
            (Token::RightBrackets, Token::RightBrackets) => true,
            (Token::Function, Token::Function) => true,
            (Token::Let, Token::Let) => true,
            (Token::True, Token::True) => true,
            (Token::False, Token::False) => true,
            (Token::If, Token::If) => true,
            (Token::Else, Token::Else) => true,
            (Token::Return, Token::Return) => true,
            _ => false,
        }
    }

    /// The name under which parse errors mention the token.
    pub fn name(&self) -> (r: String)
        ensures
            r@ == token_name(self@),
    {
        match self {
            Token::Illegal => "Illegal".to_owned(),
            Token::Eof => "Eof".to_owned(),
            Token::Identifier(text) => quoted("Identifier(\"", text),
            Token::Int(text) => quoted("Int(\"", text),
            Token::Float(text) => quoted("Float(\"", text),
            Token::Assign => "Assign".to_owned(),
            Token::Plus => "Plus".to_owned(),
            Token::Minus => "Minus".to_owned(),
            Token::Bang => "Bang".to_owned(),
            Token::Asterisk => "Asterisk".to_owned(),
            Token::Slash => "Slash".to_owned(),
            Token::Equal => "Equal".to_owned(),
            Token::NotEqual => "NotEqual".to_owned(),
            Token::LessThan => "LessThan".to_owned(),
            Token::GreaterThan => "GreaterThan".to_owned(),
            Token::Comma => "Comma".to_owned(),
            Token::Semicolon => "Semicolon".to_owned(),
            Token::LeftParen => "LeftParen".to_owned(),
            Token::RightParen => "RightParen".to_owned(),
            Token::LeftBrackets => "LeftBrackets".to_owned(),
            Token::RightBrackets => "RightBrackets".to_owned(),
            Token::Function => "Function".to_owned(),
            Token::Let => "Let".to_owned(),
            Token::True => "True".to_owned(),
            Token::False => "False".to_owned(),
            Token::If => "If".to_owned(),
            Token::Else => "Else".to_owned(),
            Token::Return => "Return".to_owned(),
        }
    }
}

fn quoted(opening: &str, text: &String) -> (r: String)
    ensures
        r@ == opening@ + text@ + "\")"@,
{
    let mut out = opening.to_owned();
    out.append(text.as_str());
    out.append("\")");
    out
}

} // verus!
