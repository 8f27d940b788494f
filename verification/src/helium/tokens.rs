//! Tokens: what the lexer emits and the parser consumes.

use crate::helium::instructions::AsmInstruction;
use crate::helium::position::Position;
use vstd::prelude::*;

verus! {

#[derive(Debug, Copy, Clone, PartialEq, Eq, Structural)]
pub enum TokenKind {
    // These three only separate statements; the parser eats them.
    Newline,
    Comma,
    SemiColon,
    Instruction,
    Identifier,
    Label,
    ConstantDeclaration,
    Directive,
    Register,
    Integer,
}

/// The payload of a token: an opcode, a 16-bit word, or a piece of text.
#[derive(Debug)]
pub enum ValueKind {
    Instruction(AsmInstruction),
    Integer(u16),
    Word(String),
}

impl Clone for ValueKind {
    fn clone(&self) -> (r: Self)
        ensures
            r == *self,
    {
        match self {
            ValueKind::Instruction(i) => ValueKind::Instruction(*i),
            ValueKind::Integer(v) => ValueKind::Integer(*v),
            ValueKind::Word(w) => ValueKind::Word(w.clone()),
        }
    }
}

impl ValueKind {
    pub open spec fn spec_word_value(self) -> Option<String> {
        match self {
            ValueKind::Word(w) => Some(w),
            _ => None,
        }
    }

    pub open spec fn spec_int_value(self) -> Option<u16> {
        match self {
            ValueKind::Integer(i) => Some(i),
            _ => None,
        }
    }

    pub open spec fn spec_instruction_code(self) -> Option<AsmInstruction> {
        match self {
            ValueKind::Instruction(i) => Some(i),
            _ => None,
        }
    }

    pub fn get_word_value(self) -> (r: Option<String>)
        ensures
            r == self.spec_word_value(),
    {
        match self {
            ValueKind::Word(w) => Some(w),
            _ => None,
        }
    }

    pub fn get_int_value(self) -> (r: Option<u16>)
        ensures
            r == self.spec_int_value(),
    {
        match self {
            ValueKind::Integer(i) => Some(i),
            _ => None,
        }
    }

    pub fn get_instruction_code(self) -> (r: Option<AsmInstruction>)
        ensures
            r == self.spec_instruction_code(),
    {
        match self {
            ValueKind::Instruction(i) => Some(i),
            _ => None,
        }
    }
}

#[derive(Debug)]
pub struct Token {
    pub kind: TokenKind,
    pub value: Option<ValueKind>,
    // For diagnostics and error reporting.
    pub file: Option<String>,
    pub position: Option<Position>,
}

impl Clone for Token {
    fn clone(&self) -> (r: Self)
        ensures
            r == *self,
    {
        Token {
            kind: self.kind,
            value: match &self.value {
                Some(v) => Some(v.clone()),
                None => None,
            },
            file: match &self.file {
                Some(f) => Some(f.clone()),
                None => None,
            },
            position: self.position,
        }
    }
}

impl Token {
    /// A token as the lexer hands it to the parser: it has a position, and its
    /// payload matches its kind.
    pub open spec fn wf(self) -> bool {
        &&& self.position is Some
        &&& match self.kind {
            TokenKind::Identifier | TokenKind::Label | TokenKind::Directive => self.value matches Some(
                ValueKind::Word(_),
            ),
            TokenKind::Integer => self.value matches Some(ValueKind::Integer(_)),
            TokenKind::Register => self.value matches Some(ValueKind::Integer(_))
                || self.value matches Some(ValueKind::Word(_)),
            TokenKind::Instruction => self.value matches Some(ValueKind::Instruction(_)),
            _ => true,
        }
    }

    pub fn new(
        token_kind: TokenKind,
        value: Option<ValueKind>,
        file: Option<String>,
        position: Option<Position>,
    ) -> (t: Token)
        ensures
            t == (Token { kind: token_kind, value, file, position }),
    {
        Token { kind: token_kind, value, file, position }
    }

    pub fn from_kind(token_kind: TokenKind) -> (t: Token)
        ensures
            t == (Token { kind: token_kind, value: None, file: None, position: None }),
    {
        Token { kind: token_kind, value: None, file: None, position: None }
    }

    pub fn with_value(token_kind: TokenKind, value: ValueKind) -> (t: Token)
        ensures
            t == (Token { kind: token_kind, value: Some(value), file: None, position: None }),
    {
        Token { kind: token_kind, value: Some(value), file: None, position: None }
    }

    pub fn set_file_name(self, name: String) -> (t: Token)
        ensures
            t == (Token { file: Some(name), ..self }),
    {
        Token { file: Some(name), ..self }
    }

    pub fn set_position(self, line: usize, chr: usize, len: usize) -> (t: Token)
        ensures
            t == (Token {
                position: Some(Position { line, chr_start: chr, length: len }),
                ..self
            }),
    {
        Token { position: Some(Position { line, chr_start: chr, length: len }), ..self }
    }

    pub fn set_value(self, value: ValueKind) -> (t: Token)
        ensures
            t == (Token { value: Some(value), ..self }),
    {
        Token { value: Some(value), ..self }
    }
}

} // verus!
