//! One statement's contribution to a segment.

use crate::helium::instructions::Instruction;
use vstd::prelude::*;

verus! {

#[derive(Debug)]
pub enum ProgramElement {
    Instruction(Instruction),
    Identifier(String),
    Immediate(u16),
}

impl ProgramElement {
    pub open spec fn spec_is_instruction(&self) -> bool {
        self matches ProgramElement::Instruction(_)
    }

    /// An element is fit for validation when its instruction (if it is one)
    /// keeps one consumed token for the mnemonic and one per argument, each
    /// with a position.
    pub open spec fn wf(&self) -> bool {
        match self {
            ProgramElement::Instruction(i) => i.tokens_align(),
            _ => true,
        }
    }

    pub fn is_instruction(&self) -> (r: bool)
        ensures
            r == self.spec_is_instruction(),
    {
        matches!(self, ProgramElement::Instruction(_))
    }
}

} // verus!
