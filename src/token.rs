use vstd::prelude::*;

verus! {

/// The category of a lexical token.
#[derive(Debug, Clone, Copy, PartialEq, Eq, Structural)]
pub enum TokenType {
    Keyword,
    Identifier,
    Number,
    String,
    Operator,
    LBrace,
    RBrace,
    LParen,
    RParen,
    LBracket,
    RBracket,
    Comma,
    Colon,
    Newline,
    EOF,
}

/// A token: its category, its text and the 1-based line and column where it starts.
#[derive(Debug, Clone, PartialEq)]
pub struct Token {
    pub token_type: TokenType,
    pub value: String,
    pub line: usize,
    pub column: usize,
}

/// What a token is, as a mathematical value.
pub ghost struct TokenView {
    pub token_type: TokenType,
    pub value: Seq<char>,
    pub line: nat,
    pub column: nat,
}

impl View for Token {
    type V = TokenView;

    open spec fn view(&self) -> TokenView {
        TokenView {
            token_type: self.token_type,
            value: self.value@,
            line: self.line as nat,
            column: self.column as nat,
        }
    }
}

impl Token {
    pub fn new(token_type: TokenType, value: String, line: usize, column: usize) -> (r: Token)
        ensures
            r.token_type == token_type,
            r.value == value,
            r.line == line,
            r.column == column,
    {
        Token { token_type, value, line, column }
    }
}

} // verus!

verus! {

/// The views of a sequence of tokens.
pub open spec fn token_views(ts: Seq<Token>) -> Seq<TokenView> {
    ts.map_values(|t: Token| t@)
}

} // verus!
