//! Tokens produced by the lexer.

use vstd::prelude::*;

verus! {

/// The kind of a token.
#[derive(Debug, Clone, Copy, PartialEq, Eq, Structural)]
pub enum TokenType {
    // Literals
    Number,
    String,
    True,
    False,
    Nil,
    // Identifiers
    Identifier,
    // Keywords
    Function,
    Procedure,
    Return,
    Local,
    Static,
    Private,
    Public,
    If,
    Else,
    ElseIf,
    EndIf,
    Do,
    While,
    EndDo,
    For,
    To,
    Step,
    Next,
    Exit,
    Loop,
    Case,
    EndCase,
    Otherwise,
    // Database keywords
    Use,
    Select,
    DbCreate,
    DbAppend,
    DbSkip,
    DbGoTop,
    DbGoBottom,
    DbSeek,
    Index,
    Close,
    Replace,
    Delete,
    Recall,
    // Operators
    Plus,
    Minus,
    Star,
    Slash,
    Percent,
    Power,
    Equal,
    NotEqual,
    Less,
    Greater,
    LessEqual,
    GreaterEqual,
    And,
    Or,
    Not,
    Assign,
    PlusAssign,
    MinusAssign,
    MultiplyAssign,
    DivideAssign,
    Increment,
    Decrement,
    // Delimiters
    LeftParen,
    RightParen,
    LeftBracket,
    RightBracket,
    LeftBrace,
    RightBrace,
    Comma,
    Dot,
    Semicolon,
    Colon,
    Arrow,
    // Special
    QuestionMark,
    Eof,
    Newline,
}

/// A token: its kind, its text, and the 1-based position where it starts.
#[derive(Debug)]
pub struct Token {
    pub token_type: TokenType,
    pub lexeme: String,
    pub line: usize,
    pub column: usize,
}

/// What a token is, with its text as a sequence of characters.
pub struct TokenView {
    pub token_type: TokenType,
    pub lexeme: Seq<char>,
    pub line: usize,
    pub column: usize,
}

impl View for Token {
    type V = TokenView;

    open spec fn view(&self) -> TokenView {
        TokenView {
            token_type: self.token_type,
            lexeme: self.lexeme@,
            line: self.line,
            column: self.column,
        }
    }
}

impl Clone for Token {
    fn clone(&self) -> (r: Token)
        ensures
            r@ == self@,
    {
        Token {
            token_type: self.token_type,
            lexeme: self.lexeme.clone(),
            line: self.line,
            column: self.column,
        }
    }
}

impl Token {
    /// A token of the given kind and text that starts at `line`, `column`.
    pub fn new(token_type: TokenType, lexeme: String, line: usize, column: usize) -> (r: Token)
        ensures
            r.token_type == token_type,
            r.lexeme == lexeme,
            r.line == line,
            r.column == column,
    {
        Token { token_type, lexeme, line, column }
    }
}

/// The views of a sequence of tokens.
pub open spec fn token_views(tokens: Seq<Token>) -> Seq<TokenView> {
    Seq::new(tokens.len(), |i: int| tokens[i]@)
}

} // verus!
