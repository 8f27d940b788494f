//! Positioned diagnostics, accumulated by the lexer and the validator.

use crate::helium::position::Position;
use vstd::prelude::*;

verus! {

/// An older diagnostic shape, kept for hosts that still report by line alone.
#[derive(Debug)]
pub enum Error {
    UnexpectedToken(String, u32),
    UnexpectedEOF(u32),
    ParseError(String, u32),
    MismatchedTypes(String, u32),
    UnknownIdentifier(String, u32),
    UnknownDirective(String, u32),
    SystemError(String, u32),
    IncludeError(String, u32),
    ConstantCollision(String, u32),
}

impl Error {
    pub open spec fn spec_line(&self) -> u32 {
        match self {
            Error::UnexpectedToken(_, l) => *l,
            Error::UnexpectedEOF(l) => *l,
            Error::ParseError(_, l) => *l,
            Error::MismatchedTypes(_, l) => *l,
            Error::UnknownIdentifier(_, l) => *l,
            Error::UnknownDirective(_, l) => *l,
            Error::SystemError(_, l) => *l,
            Error::IncludeError(_, l) => *l,
            Error::ConstantCollision(_, l) => *l,
        }
    }

    pub open spec fn spec_err(&self) -> Seq<char> {
        match self {
            Error::UnexpectedToken(a, _) => a@,
            Error::UnexpectedEOF(_) => "Eof"@,
            Error::ParseError(s, _) => s@,
            Error::MismatchedTypes(s, _) => s@,
            Error::UnknownIdentifier(s, _) => s@,
            Error::UnknownDirective(s, _) => s@,
            Error::SystemError(s, _) => s@,
            Error::IncludeError(s, _) => s@,
            Error::ConstantCollision(s, _) => s@,
        }
    }

    pub fn get_line(&self) -> (l: u32)
        ensures
            l == self.spec_line(),
    {
        match self {
            Error::UnexpectedToken(_, l) => *l,
            Error::UnexpectedEOF(l) => *l,
            Error::ParseError(_, l) => *l,
            Error::MismatchedTypes(_, l) => *l,
            Error::UnknownIdentifier(_, l) => *l,
            Error::UnknownDirective(_, l) => *l,
            Error::SystemError(_, l) => *l,
            Error::IncludeError(_, l) => *l,
            Error::ConstantCollision(_, l) => *l,
        }
    }

    pub fn get_err(&self) -> (r: &str)
        ensures
            r@ == self.spec_err(),
    {
        match self {
            Error::UnexpectedToken(a, _) => a.as_str(),
            Error::UnexpectedEOF(_) => "Eof",
            Error::ParseError(s, _) => s.as_str(),
            Error::MismatchedTypes(s, _) => s.as_str(),
            Error::UnknownIdentifier(s, _) => s.as_str(),
            Error::UnknownDirective(s, _) => s.as_str(),
            Error::SystemError(s, _) => s.as_str(),
            Error::IncludeError(s, _) => s.as_str(),
            Error::ConstantCollision(s, _) => s.as_str(),
        }
    }
}

/// A positioned diagnostic: where in the source, and what went wrong.
#[derive(Debug)]
pub struct HeliumError {
    pub pos: Position,
    pub message: String,
}

impl HeliumError {
    pub fn new(message: String, pos: Position) -> (e: HeliumError)
        ensures
            e == (HeliumError { message, pos }),
    {
        HeliumError { message, pos }
    }
}

impl Clone for HeliumError {
    fn clone(&self) -> (r: Self)
        ensures
            r == *self,
    {
        HeliumError { pos: self.pos, message: self.message.clone() }
    }
}

} // verus!
