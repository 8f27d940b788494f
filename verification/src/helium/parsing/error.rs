//! The parser's error taxonomy. Errors accumulate across the whole import
//! graph and are returned together once the root parse finishes.

use crate::helium::errors::HeliumError;
use crate::helium::tokens::TokenKind;
use vstd::prelude::*;

verus! {

#[derive(Debug)]
pub enum ParserError {
    UnexpectedEOF,
    MismatchedTypes { expected: TokenKind, got: TokenKind },
    ConstantCollision { file: String, name: String },
    UnexpectedToken { kind: TokenKind },
    Named { error: String },
    UnknownDirective { name: String },
    UnknownIdentifier { name: String },
    FileNotFound(String),
    FileError(String),
    ImportLexError(HeliumError),
}

impl Clone for ParserError {
    fn clone(&self) -> (r: Self)
        ensures
            r == *self,
    {
        match self {
            ParserError::UnexpectedEOF => ParserError::UnexpectedEOF,
            ParserError::MismatchedTypes { expected, got } => ParserError::MismatchedTypes {
                expected: *expected,
                got: *got,
            },
            ParserError::ConstantCollision { file, name } => ParserError::ConstantCollision {
                file: file.clone(),
                name: name.clone(),
            },
            ParserError::UnexpectedToken { kind } => ParserError::UnexpectedToken { kind: *kind },
            ParserError::Named { error } => ParserError::Named { error: error.clone() },
            ParserError::UnknownDirective { name } => ParserError::UnknownDirective {
                name: name.clone(),
            },
            ParserError::UnknownIdentifier { name } => ParserError::UnknownIdentifier {
                name: name.clone(),
            },
            ParserError::FileNotFound(n) => ParserError::FileNotFound(n.clone()),
            ParserError::FileError(n) => ParserError::FileError(n.clone()),
            ParserError::ImportLexError(e) => ParserError::ImportLexError(e.clone()),
        }
    }
}

impl TokenKind {
    /// The kind's name as diagnostics print it.
    pub open spec fn spec_name(self) -> Seq<char> {
        match self {
            TokenKind::Newline => "\\n"@,
            TokenKind::Comma => ","@,
            TokenKind::SemiColon => ";"@,
            TokenKind::Instruction => "Instruction"@,
            TokenKind::Identifier => "Identifier"@,
            TokenKind::Label => "Label"@,
            TokenKind::ConstantDeclaration => "const"@,
            TokenKind::Directive => "Directive"@,
            TokenKind::Register => "Register"@,
            TokenKind::Integer => "Integer"@,
        }
    }

    pub fn name(self) -> (r: &'static str)
        ensures
            r@ == self.spec_name(),
    {
        match self {
            TokenKind::Newline => "\\n",
            TokenKind::Comma => ",",
            TokenKind::SemiColon => ";",
            TokenKind::Instruction => "Instruction",
            TokenKind::Identifier => "Identifier",
            TokenKind::Label => "Label",
            TokenKind::ConstantDeclaration => "const",
            TokenKind::Directive => "Directive",
            TokenKind::Register => "Register",
            TokenKind::Integer => "Integer",
        }
    }
}

impl ParserError {
    /// What the error reads as, one line.
    pub open spec fn spec_message(&self) -> Seq<char> {
        match self {
            ParserError::UnexpectedEOF => "Unexpected EOF"@,
            ParserError::MismatchedTypes { expected, got } => "Mismatched Types. expected: "@
                + expected.spec_name() + ", got: "@ + got.spec_name(),
            ParserError::ConstantCollision { file, name } => "Constant collision: "@ + file@
                + ":"@ + name@,
            ParserError::UnexpectedToken { kind } => "Unexpected Token: "@ + kind.spec_name(),
            ParserError::Named { error } => error@,
            ParserError::UnknownDirective { name } => "Unknown Directive: "@ + name@,
            ParserError::UnknownIdentifier { name } => "Unknown Identifier: '"@ + name@ + "'"@,
            ParserError::FileNotFound(name) => "File Not Found: "@ + name@,
            ParserError::FileError(name) => "Could Not Open File: "@ + name@,
            ParserError::ImportLexError(e) => "Lexical error: "@ + e.message@,
        }
    }

    pub fn message(&self) -> (r: String)
        ensures
            r@ == self.spec_message(),
    {
        match self {
            ParserError::UnexpectedEOF => String::from_str("Unexpected EOF"),
            ParserError::MismatchedTypes { expected, got } => String::from_str(
                "Mismatched Types. expected: ",
            ).concat(expected.name()).concat(", got: ").concat(got.name()),
            ParserError::ConstantCollision { file, name } => String::from_str(
                "Constant collision: ",
            ).concat(file.as_str()).concat(":").concat(name.as_str()),
            ParserError::UnexpectedToken { kind } => String::from_str("Unexpected Token: ").concat(
                kind.name(),
            ),
            ParserError::Named { error } => error.clone(),
            ParserError::UnknownDirective { name } => String::from_str(
                "Unknown Directive: ",
            ).concat(name.as_str()),
            ParserError::UnknownIdentifier { name } => String::from_str(
                "Unknown Identifier: '",
            ).concat(name.as_str()).concat("'"),
            ParserError::FileNotFound(name) => String::from_str("File Not Found: ").concat(
                name.as_str(),
            ),
            ParserError::FileError(name) => String::from_str("Could Not Open File: ").concat(
                name.as_str(),
            ),
            ParserError::ImportLexError(e) => String::from_str("Lexical error: ").concat(
                e.message.as_str(),
            ),
        }
    }
}

} // verus!
