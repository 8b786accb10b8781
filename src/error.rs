use vstd::prelude::*;

use crate::text::{decimal, push_decimal};

verus! {

/// An error of one of the three stages, with its message and where it happened.
#[derive(Debug)]
pub enum CompilerError {
    LexerError { message: String, line: usize, column: usize },
    ParserError { message: String, line: usize, column: usize },
    RuntimeError { message: String, line: usize },
}

/// The one-line description of an error.
pub open spec fn error_text(e: CompilerError) -> Seq<char> {
    match e {
        CompilerError::LexerError { message, line, column } => "Lexer Error line "@ + decimal(
            line as nat,
        ) + " ma, column "@ + decimal(column as nat) + ": "@ + message@,
        CompilerError::ParserError { message, line, column } => "Syntax Error line "@ + decimal(
            line as nat,
        ) + " ma, column "@ + decimal(column as nat) + ": "@ + message@,
        CompilerError::RuntimeError { message, line } => "Runtime Error line "@ + decimal(
            line as nat,
        ) + " ma: "@ + message@,
    }
}

impl CompilerError {
    /// The one-line description of this error.
    pub fn describe(&self) -> (r: String)
        ensures
            r@ == error_text(*self),
    {
        match self {
            CompilerError::LexerError { message, line, column } => {
                let mut m = String::from_str("Lexer Error line ");
                push_decimal(&mut m, *line);
                m.append(" ma, column ");
                push_decimal(&mut m, *column);
                m.append(": ");
                m.append(message.as_str());
                m
            },
            CompilerError::ParserError { message, line, column } => {
                let mut m = String::from_str("Syntax Error line ");
                push_decimal(&mut m, *line);
                m.append(" ma, column ");
                push_decimal(&mut m, *column);
                m.append(": ");
                m.append(message.as_str());
                m
            },
            CompilerError::RuntimeError { message, line } => {
                let mut m = String::from_str("Runtime Error line ");
                push_decimal(&mut m, *line);
                m.append(" ma: ");
                m.append(message.as_str());
                m
            },
        }
    }
}

} // verus!
