//! The instruction set: every opcode, its mnemonic spellings, and the shape
//! of an instruction and its arguments.

use crate::helium::text::{spec_decimal, str_eq};
use crate::helium::validator::spec_signature;
use crate::helium::tokens::Token;
use vstd::prelude::*;

verus! {

/// The closed set of machine instructions.
#[derive(Debug, Copy, Clone, PartialEq, Eq, Structural)]
pub enum AsmInstruction {
    Halt,
    NoOperation,
    Reset,
    CallInterrupt,
    ReturnInterrupt,
    WaitUntilInterrupt,
    SetInterruptAddress,
    Move,
    Store,
    StoreProgramMemory,
    Load,
    LoadProgramMemory,
    Push,
    Pop,
    Add,
    AddWithCarry,
    Sub,
    SubWithCarry,
    Negative,
    Increment,
    Decrement,
    And,
    Or,
    Xor,
    Not,
    ShiftLeft,
    ShiftRight,
    SetBit,
    BitCheck,
    Compare,
    CompareSigned,
    Jump,
    Call,
    Return,
    JumpEquals,
    CallEquals,
    ReturnEquals,
    JumpNotEquals,
    CallNotEquals,
    ReturnNotEquals,
    JumpLessThan,
    CallLessThan,
    ReturnLessThan,
    JumpLessThanEq,
    CallLessThanEq,
    ReturnLessThanEq,
    JumpNotLessThan,
    CallNotLessThan,
    ReturnNotLessThan,
    JumpGreaterThan,
    CallGreaterThan,
    ReturnGreaterThan,
    JumpGreaterThanEq,
    CallGreaterThanEq,
    ReturnGreaterThanEq,
    JumpNotGreaterThan,
    CallNotGreaterThan,
    ReturnNotGreaterThan,
    JumpZero,
    CallZero,
    ReturnZero,
    JumpOverflow,
    CallOverflow,
    ReturnOverflow,
    JumpCarry,
    CallCarry,
    ReturnCarry,
}

/// Which opcode a word names. Each mnemonic is matched case-sensitively in its
/// all-lowercase and all-uppercase spelling only; anything else is no mnemonic.
pub open spec fn spec_match_instruction(w: Seq<char>) -> Option<AsmInstruction> {
    if w == "mov"@ || w == "MOV"@ {
        Some(AsmInstruction::Move)
    } else if w == "hlt"@ || w == "HLT"@ {
        Some(AsmInstruction::Halt)
    } else if w == "nop"@ || w == "NOP"@ {
        Some(AsmInstruction::NoOperation)
    } else if w == "rst"@ || w == "RST"@ {
        Some(AsmInstruction::Reset)
    } else if w == "int"@ || w == "INT"@ {
        Some(AsmInstruction::CallInterrupt)
    } else if w == "wai"@ || w == "WAI"@ {
        Some(AsmInstruction::WaitUntilInterrupt)
    } else if w == "sia"@ || w == "SIA"@ {
        Some(AsmInstruction::SetInterruptAddress)
    } else if w == "st"@ || w == "ST"@ {
        Some(AsmInstruction::Store)
    } else if w == "stp"@ || w == "STP"@ {
        Some(AsmInstruction::StoreProgramMemory)
    } else if w == "ld"@ || w == "LD"@ {
        Some(AsmInstruction::Load)
    } else if w == "ldp"@ || w == "LDP"@ {
        Some(AsmInstruction::LoadProgramMemory)
    } else if w == "psh"@ || w == "PSH"@ {
        Some(AsmInstruction::Push)
    } else if w == "pop"@ || w == "POP"@ {
        Some(AsmInstruction::Pop)
    } else if w == "add"@ || w == "ADD"@ {
        Some(AsmInstruction::Add)
    } else if w == "adc"@ || w == "ADC"@ {
        Some(AsmInstruction::AddWithCarry)
    } else if w == "sub"@ || w == "SUB"@ {
        Some(AsmInstruction::Sub)
    } else if w == "sbc"@ || w == "SBC"@ {
        Some(AsmInstruction::SubWithCarry)
    } else if w == "neg"@ || w == "NEG"@ {
        Some(AsmInstruction::Negative)
    } else if w == "inc"@ || w == "INC"@ {
        Some(AsmInstruction::Increment)
    } else if w == "dec"@ || w == "DEC"@ {
        Some(AsmInstruction::Decrement)
    } else if w == "and"@ || w == "AND"@ {
        Some(AsmInstruction::And)
    } else if w == "or"@ || w == "OR"@ {
        Some(AsmInstruction::Or)
    } else if w == "xor"@ || w == "XOR"@ {
        Some(AsmInstruction::Xor)
    } else if w == "not"@ || w == "NOT"@ {
        Some(AsmInstruction::Not)
    } else if w == "shl"@ || w == "SHL"@ {
        Some(AsmInstruction::ShiftLeft)
    } else if w == "shr"@ || w == "SHR"@ {
        Some(AsmInstruction::ShiftRight)
    } else if w == "set"@ || w == "SET"@ {
        Some(AsmInstruction::SetBit)
    } else if w == "bit"@ || w == "BIT"@ {
        Some(AsmInstruction::BitCheck)
    } else if w == "cmp"@ || w == "CMP"@ {
        Some(AsmInstruction::Compare)
    } else if w == "cms"@ || w == "CMS"@ {
        Some(AsmInstruction::CompareSigned)
    } else if w == "jmp"@ || w == "JMP"@ {
        Some(AsmInstruction::Jump)
    } else if w == "cal"@ || w == "CAL"@ {
        Some(AsmInstruction::Call)
    } else if w == "ret"@ || w == "RET"@ {
        Some(AsmInstruction::Return)
    } else if w == "jeq"@ || w == "JEQ"@ {
        Some(AsmInstruction::JumpEquals)
    } else if w == "jne"@ || w == "JNE"@ {
        Some(AsmInstruction::JumpNotEquals)
    } else if w == "jlt"@ || w == "JLT"@ {
        Some(AsmInstruction::JumpLessThan)
    } else if w == "jle"@ || w == "JLE"@ {
        Some(AsmInstruction::JumpLessThanEq)
    } else if w == "jnl"@ || w == "JNL"@ {
        Some(AsmInstruction::JumpNotLessThan)
    } else if w == "jgt"@ || w == "JGT"@ {
        Some(AsmInstruction::JumpGreaterThan)
    } else if w == "jge"@ || w == "JGE"@ {
        Some(AsmInstruction::JumpGreaterThanEq)
    } else if w == "jng"@ || w == "JNG"@ {
        Some(AsmInstruction::JumpNotGreaterThan)
    } else if w == "jez"@ || w == "JEZ"@ {
        Some(AsmInstruction::JumpZero)
    } else if w == "jof"@ || w == "JOF"@ {
        Some(AsmInstruction::JumpOverflow)
    } else if w == "jcr"@ || w == "JCR"@ {
        Some(AsmInstruction::JumpCarry)
    } else if w == "ceq"@ || w == "CEQ"@ {
        Some(AsmInstruction::CallEquals)
    } else if w == "cne"@ || w == "CNE"@ {
        Some(AsmInstruction::CallNotEquals)
    } else if w == "clt"@ || w == "CLT"@ {
        Some(AsmInstruction::CallLessThan)
    } else if w == "cle"@ || w == "CLE"@ {
        Some(AsmInstruction::CallLessThanEq)
    } else if w == "cnl"@ || w == "CNL"@ {
        Some(AsmInstruction::CallNotLessThan)
    } else if w == "cgt"@ || w == "CGT"@ {
        Some(AsmInstruction::CallGreaterThan)
    } else if w == "cge"@ || w == "CGE"@ {
        Some(AsmInstruction::CallGreaterThanEq)
    } else if w == "cng"@ || w == "CNG"@ {
        Some(AsmInstruction::CallNotGreaterThan)
    } else if w == "cez"@ || w == "CEZ"@ {
        Some(AsmInstruction::CallZero)
    } else if w == "cof"@ || w == "COF"@ {
        Some(AsmInstruction::CallOverflow)
    } else if w == "ccr"@ || w == "CCR"@ {
        Some(AsmInstruction::CallCarry)
    } else if w == "req"@ || w == "REQ"@ {
        Some(AsmInstruction::ReturnEquals)
    } else if w == "rne"@ || w == "RNE"@ {
        Some(AsmInstruction::ReturnNotEquals)
    } else if w == "rlt"@ || w == "RLT"@ {
        Some(AsmInstruction::ReturnLessThan)
    } else if w == "rle"@ || w == "RLE"@ {
        Some(AsmInstruction::ReturnLessThanEq)
    } else if w == "rnl"@ || w == "RNL"@ {
        Some(AsmInstruction::ReturnNotLessThan)
    } else if w == "rgt"@ || w == "RGT"@ {
        Some(AsmInstruction::ReturnGreaterThan)
    } else if w == "rge"@ || w == "RGE"@ {
        Some(AsmInstruction::ReturnGreaterThanEq)
    } else if w == "rng"@ || w == "RNG"@ {
        Some(AsmInstruction::ReturnNotGreaterThan)
    } else if w == "rez"@ || w == "REZ"@ {
        Some(AsmInstruction::ReturnZero)
    } else if w == "rof"@ || w == "ROF"@ {
        Some(AsmInstruction::ReturnOverflow)
    } else if w == "rcr"@ || w == "RCR"@ {
        Some(AsmInstruction::ReturnCarry)
    } else {
        None
    }
}

impl AsmInstruction {
    /// Looks a word up in the mnemonic table.
    pub fn match_instruction(word: &str) -> (r: Option<AsmInstruction>)
        ensures
            r == spec_match_instruction(word@),
    {
        if str_eq(word, "mov") || str_eq(word, "MOV") {
            Some(AsmInstruction::Move)
        } else if str_eq(word, "hlt") || str_eq(word, "HLT") {
            Some(AsmInstruction::Halt)
        } else if str_eq(word, "nop") || str_eq(word, "NOP") {
            Some(AsmInstruction::NoOperation)
        } else if str_eq(word, "rst") || str_eq(word, "RST") {
            Some(AsmInstruction::Reset)
        } else if str_eq(word, "int") || str_eq(word, "INT") {
            Some(AsmInstruction::CallInterrupt)
        } else if str_eq(word, "wai") || str_eq(word, "WAI") {
            Some(AsmInstruction::WaitUntilInterrupt)
        } else if str_eq(word, "sia") || str_eq(word, "SIA") {
            Some(AsmInstruction::SetInterruptAddress)
        } else if str_eq(word, "st") || str_eq(word, "ST") {
            Some(AsmInstruction::Store)
        } else if str_eq(word, "stp") || str_eq(word, "STP") {
            Some(AsmInstruction::StoreProgramMemory)
        } else if str_eq(word, "ld") || str_eq(word, "LD") {
            Some(AsmInstruction::Load)
        } else if str_eq(word, "ldp") || str_eq(word, "LDP") {
            Some(AsmInstruction::LoadProgramMemory)
        } else if str_eq(word, "psh") || str_eq(word, "PSH") {
            Some(AsmInstruction::Push)
        } else if str_eq(word, "pop") || str_eq(word, "POP") {
            Some(AsmInstruction::Pop)
        } else if str_eq(word, "add") || str_eq(word, "ADD") {
            Some(AsmInstruction::Add)
        } else if str_eq(word, "adc") || str_eq(word, "ADC") {
            Some(AsmInstruction::AddWithCarry)
        } else if str_eq(word, "sub") || str_eq(word, "SUB") {
            Some(AsmInstruction::Sub)
        } else if str_eq(word, "sbc") || str_eq(word, "SBC") {
            Some(AsmInstruction::SubWithCarry)
        } else if str_eq(word, "neg") || str_eq(word, "NEG") {
            Some(AsmInstruction::Negative)
        } else if str_eq(word, "inc") || str_eq(word, "INC") {
            Some(AsmInstruction::Increment)
        } else if str_eq(word, "dec") || str_eq(word, "DEC") {
            Some(AsmInstruction::Decrement)
        } else if str_eq(word, "and") || str_eq(word, "AND") {
            Some(AsmInstruction::And)
        } else if str_eq(word, "or") || str_eq(word, "OR") {
            Some(AsmInstruction::Or)
        } else if str_eq(word, "xor") || str_eq(word, "XOR") {
            Some(AsmInstruction::Xor)
        } else if str_eq(word, "not") || str_eq(word, "NOT") {
            Some(AsmInstruction::Not)
        } else if str_eq(word, "shl") || str_eq(word, "SHL") {
            Some(AsmInstruction::ShiftLeft)
        } else if str_eq(word, "shr") || str_eq(word, "SHR") {
            Some(AsmInstruction::ShiftRight)
        } else if str_eq(word, "set") || str_eq(word, "SET") {
            Some(AsmInstruction::SetBit)
        } else if str_eq(word, "bit") || str_eq(word, "BIT") {
            Some(AsmInstruction::BitCheck)
        } else if str_eq(word, "cmp") || str_eq(word, "CMP") {
            Some(AsmInstruction::Compare)
        } else if str_eq(word, "cms") || str_eq(word, "CMS") {
            Some(AsmInstruction::CompareSigned)
        } else if str_eq(word, "jmp") || str_eq(word, "JMP") {
            Some(AsmInstruction::Jump)
        } else if str_eq(word, "cal") || str_eq(word, "CAL") {
            Some(AsmInstruction::Call)
        } else if str_eq(word, "ret") || str_eq(word, "RET") {
            Some(AsmInstruction::Return)
        } else if str_eq(word, "jeq") || str_eq(word, "JEQ") {
            Some(AsmInstruction::JumpEquals)
        } else if str_eq(word, "jne") || str_eq(word, "JNE") {
            Some(AsmInstruction::JumpNotEquals)
        } else if str_eq(word, "jlt") || str_eq(word, "JLT") {
            Some(AsmInstruction::JumpLessThan)
        } else if str_eq(word, "jle") || str_eq(word, "JLE") {
            Some(AsmInstruction::JumpLessThanEq)
        } else if str_eq(word, "jnl") || str_eq(word, "JNL") {
            Some(AsmInstruction::JumpNotLessThan)
        } else if str_eq(word, "jgt") || str_eq(word, "JGT") {
            Some(AsmInstruction::JumpGreaterThan)
        } else if str_eq(word, "jge") || str_eq(word, "JGE") {
            Some(AsmInstruction::JumpGreaterThanEq)
        } else if str_eq(word, "jng") || str_eq(word, "JNG") {
            Some(AsmInstruction::JumpNotGreaterThan)
        } else if str_eq(word, "jez") || str_eq(word, "JEZ") {
            Some(AsmInstruction::JumpZero)
        } else if str_eq(word, "jof") || str_eq(word, "JOF") {
            Some(AsmInstruction::JumpOverflow)
        } else if str_eq(word, "jcr") || str_eq(word, "JCR") {
            Some(AsmInstruction::JumpCarry)
        } else if str_eq(word, "ceq") || str_eq(word, "CEQ") {
            Some(AsmInstruction::CallEquals)
        } else if str_eq(word, "cne") || str_eq(word, "CNE") {
            Some(AsmInstruction::CallNotEquals)
        } else if str_eq(word, "clt") || str_eq(word, "CLT") {
            Some(AsmInstruction::CallLessThan)
        } else if str_eq(word, "cle") || str_eq(word, "CLE") {
            Some(AsmInstruction::CallLessThanEq)
        } else if str_eq(word, "cnl") || str_eq(word, "CNL") {
            Some(AsmInstruction::CallNotLessThan)
        } else if str_eq(word, "cgt") || str_eq(word, "CGT") {
            Some(AsmInstruction::CallGreaterThan)
        } else if str_eq(word, "cge") || str_eq(word, "CGE") {
            Some(AsmInstruction::CallGreaterThanEq)
        } else if str_eq(word, "cng") || str_eq(word, "CNG") {
            Some(AsmInstruction::CallNotGreaterThan)
        } else if str_eq(word, "cez") || str_eq(word, "CEZ") {
            Some(AsmInstruction::CallZero)
        } else if str_eq(word, "cof") || str_eq(word, "COF") {
            Some(AsmInstruction::CallOverflow)
        } else if str_eq(word, "ccr") || str_eq(word, "CCR") {
            Some(AsmInstruction::CallCarry)
        } else if str_eq(word, "req") || str_eq(word, "REQ") {
            Some(AsmInstruction::ReturnEquals)
        } else if str_eq(word, "rne") || str_eq(word, "RNE") {
            Some(AsmInstruction::ReturnNotEquals)
        } else if str_eq(word, "rlt") || str_eq(word, "RLT") {
            Some(AsmInstruction::ReturnLessThan)
        } else if str_eq(word, "rle") || str_eq(word, "RLE") {
            Some(AsmInstruction::ReturnLessThanEq)
        } else if str_eq(word, "rnl") || str_eq(word, "RNL") {
            Some(AsmInstruction::ReturnNotLessThan)
        } else if str_eq(word, "rgt") || str_eq(word, "RGT") {
            Some(AsmInstruction::ReturnGreaterThan)
        } else if str_eq(word, "rge") || str_eq(word, "RGE") {
            Some(AsmInstruction::ReturnGreaterThanEq)
        } else if str_eq(word, "rng") || str_eq(word, "RNG") {
            Some(AsmInstruction::ReturnNotGreaterThan)
        } else if str_eq(word, "rez") || str_eq(word, "REZ") {
            Some(AsmInstruction::ReturnZero)
        } else if str_eq(word, "rof") || str_eq(word, "ROF") {
            Some(AsmInstruction::ReturnOverflow)
        } else if str_eq(word, "rcr") || str_eq(word, "RCR") {
            Some(AsmInstruction::ReturnCarry)
        } else {
            None
        }
    }
}

/// One statement's instruction: the opcode, its arguments in order, and the
/// tokens it was read from (kept for diagnostics).
#[derive(Debug)]
pub struct Instruction {
    pub kind: AsmInstruction,
    pub args: Vec<Argument>,
    pub tokens_used: Vec<Token>,
}

impl Instruction {
    /// The tokens kept for diagnostics line up with the arguments: one for
    /// the mnemonic, then one per argument, each with a position. A synthetic
    /// instruction that takes no arguments (the closing halt) keeps no tokens
    /// and needs none.
    pub open spec fn tokens_align(&self) -> bool {
        ||| {
            &&& self.tokens_used@.len() == self.args@.len() + 1
            &&& forall|k: int|
                0 <= k < self.tokens_used@.len() ==> (
                #[trigger] self.tokens_used@[k]).position is Some
        }
        ||| self.args@.len() == 0 && spec_signature(self.kind).len() == 0
    }

    pub fn new(kind: AsmInstruction) -> (r: Instruction)
        ensures
            r.kind == kind,
            r.args@ == Seq::<Argument>::empty(),
            r.tokens_used@ == Seq::<Token>::empty(),
    {
        Instruction { kind, args: Vec::new(), tokens_used: Vec::new() }
    }
}

/// An instruction argument: a register or an immediate, each either a literal
/// or a name still to be resolved.
#[derive(Debug)]
pub enum Argument {
    Register(u16),
    RegisterIdentifier(String),
    Immediate(u16),
    ImmediateIdentifier(String),
}

impl Clone for Argument {
    fn clone(&self) -> (r: Self)
        ensures
            r == *self,
    {
        match self {
            Argument::Register(i) => Argument::Register(*i),
            Argument::RegisterIdentifier(s) => Argument::RegisterIdentifier(s.clone()),
            Argument::Immediate(i) => Argument::Immediate(*i),
            Argument::ImmediateIdentifier(s) => Argument::ImmediateIdentifier(s.clone()),
        }
    }
}

impl Argument {
    pub open spec fn spec_is_register(&self) -> bool {
        self matches Argument::Register(_) || self matches Argument::RegisterIdentifier(_)
    }

    pub open spec fn spec_is_integer(&self) -> bool {
        self matches Argument::Immediate(_) || self matches Argument::ImmediateIdentifier(_)
    }

    /// Returns true if the argument is register-like.
    pub fn is_register(&self) -> (r: bool)
        ensures
            r == self.spec_is_register(),
    {
        matches!(self, Argument::Register(_)) || matches!(self, Argument::RegisterIdentifier(_))
    }

    /// Returns true if the argument is integer-like.
    pub fn is_integer(&self) -> (r: bool)
        ensures
            r == self.spec_is_integer(),
    {
        matches!(self, Argument::Immediate(_)) || matches!(self, Argument::ImmediateIdentifier(_))
    }

    /// The argument's kind as the diagnostics name it.
    pub fn kind(&self) -> (r: String)
        ensures
            self.spec_is_register() ==> r@ == "Register"@,
            self.spec_is_integer() ==> r@ == "Integer"@,
    {
        if self.is_register() {
            String::from_str("Register")
        } else {
            String::from_str("Integer")
        }
    }

    /// How many characters the argument takes when written back out: the
    /// decimal numeral's length for a literal, the name's length for a name.
    pub fn calculate_len(&self) -> (r: usize)
        ensures
            match self {
                Argument::Register(i) => r == spec_decimal(*i as int).len(),
                Argument::Immediate(i) => r == spec_decimal(*i as int).len(),
                Argument::RegisterIdentifier(s) => r == s@.len(),
                Argument::ImmediateIdentifier(s) => r == s@.len(),
            },
    {
        match self {
            Argument::Register(i) => decimal_len(*i),
            Argument::RegisterIdentifier(s) => s.as_str().unicode_len(),
            Argument::Immediate(i) => decimal_len(*i),
            Argument::ImmediateIdentifier(s) => s.as_str().unicode_len(),
        }
    }
}

/// The length of a 16-bit word's decimal numeral.
fn decimal_len(v: u16) -> (r: usize)
    ensures
        r == spec_decimal(v as int).len(),
{
    proof {
        reveal_with_fuel(spec_decimal, 6);
    }
    if v < 10 {
        1
    } else if v < 100 {
        2
    } else if v < 1000 {
        3
    } else if v < 10000 {
        4
    } else {
        5
    }
}

} // verus!
