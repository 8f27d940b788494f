//! The validator: checks every instruction of a finished tree against the
//! fixed per-opcode argument signature, and returns every diagnostic at once.

use crate::helium::errors::HeliumError;
use crate::helium::instructions::{Argument, AsmInstruction, Instruction};
use crate::helium::parsing::program_element::ProgramElement;
use crate::helium::parsing::program_segment::ProgramSegment;
use crate::helium::parsing::program_tree::ProgramTree;
use crate::helium::position::Position;
use crate::helium::text::{spec_decimal, u64_to_string};
use vstd::prelude::*;

verus! {

/// What an argument slot accepts.
#[derive(Debug, Copy, Clone, PartialEq, Eq, Structural)]
pub enum ArgType {
    Register,
    Integer,
    Any,
}

impl ArgType {
    /// The slot's name as the diagnostics print it.
    pub open spec fn spec_name(self) -> Seq<char> {
        match self {
            ArgType::Register => "Register"@,
            ArgType::Integer => "Int"@,
            ArgType::Any => "Reg/Int"@,
        }
    }

    pub fn name(self) -> (r: &'static str)
        ensures
            r@ == self.spec_name(),
    {
        match self {
            ArgType::Register => "Register",
            ArgType::Integer => "Int",
            ArgType::Any => "Reg/Int",
        }
    }
}

/// Whether an argument fits a slot: register-like in a register slot,
/// integer-like in an integer slot, anything in an `Any` slot.
pub open spec fn spec_arg_matches(a: Argument, t: ArgType) -> bool {
    match t {
        ArgType::Register => a.spec_is_register(),
        ArgType::Integer => a.spec_is_integer(),
        ArgType::Any => true,
    }
}

fn arg_matches(a: &Argument, t: ArgType) -> (r: bool)
    ensures
        r == spec_arg_matches(*a, t),
{
    match t {
        ArgType::Register => a.is_register(),
        ArgType::Integer => a.is_integer(),
        ArgType::Any => true,
    }
}

/// The expected argument shape of each opcode. The table is exhaustive by
/// construction: the match has no default arm.
pub open spec fn spec_signature(op: AsmInstruction) -> Seq<ArgType> {
    match op {
        AsmInstruction::Halt => Seq::empty(),
        AsmInstruction::NoOperation => Seq::empty(),
        AsmInstruction::Reset => Seq::empty(),
        AsmInstruction::ReturnInterrupt => Seq::empty(),
        AsmInstruction::Return => Seq::empty(),
        AsmInstruction::ReturnCarry => Seq::empty(),
        AsmInstruction::ReturnOverflow => Seq::empty(),
        AsmInstruction::ReturnEquals => Seq::empty(),
        AsmInstruction::ReturnGreaterThan => Seq::empty(),
        AsmInstruction::ReturnGreaterThanEq => Seq::empty(),
        AsmInstruction::ReturnLessThan => Seq::empty(),
        AsmInstruction::ReturnLessThanEq => Seq::empty(),
        AsmInstruction::ReturnNotEquals => Seq::empty(),
        AsmInstruction::ReturnNotGreaterThan => Seq::empty(),
        AsmInstruction::ReturnNotLessThan => Seq::empty(),
        AsmInstruction::ReturnZero => Seq::empty(),
        AsmInstruction::CallInterrupt => Seq::empty(),
        AsmInstruction::WaitUntilInterrupt => Seq::empty(),
        AsmInstruction::SetInterruptAddress => seq![ArgType::Any],
        AsmInstruction::Move => seq![ArgType::Register, ArgType::Any],
        AsmInstruction::Store => seq![ArgType::Register, ArgType::Any],
        AsmInstruction::StoreProgramMemory => seq![ArgType::Register, ArgType::Any],
        AsmInstruction::Load => seq![ArgType::Register, ArgType::Any],
        AsmInstruction::LoadProgramMemory => seq![ArgType::Register, ArgType::Any],
        AsmInstruction::Push => seq![ArgType::Register],
        AsmInstruction::Pop => seq![ArgType::Register],
        AsmInstruction::Add => seq![ArgType::Register, ArgType::Register, ArgType::Register],
        AsmInstruction::AddWithCarry => seq![ArgType::Register, ArgType::Register, ArgType::Register],
        AsmInstruction::Sub => seq![ArgType::Register, ArgType::Register, ArgType::Register],
        AsmInstruction::SubWithCarry => seq![ArgType::Register, ArgType::Register, ArgType::Register],
        AsmInstruction::Negative => seq![ArgType::Register],
        AsmInstruction::Increment => seq![ArgType::Register],
        AsmInstruction::Decrement => seq![ArgType::Register],
        AsmInstruction::And => seq![ArgType::Register, ArgType::Register, ArgType::Register],
        AsmInstruction::Or => seq![ArgType::Register, ArgType::Register, ArgType::Register],
        AsmInstruction::Xor => seq![ArgType::Register, ArgType::Register, ArgType::Register],
        AsmInstruction::Not => seq![ArgType::Register, ArgType::Register],
        AsmInstruction::ShiftLeft => seq![ArgType::Register, ArgType::Register, ArgType::Register],
        AsmInstruction::ShiftRight => seq![ArgType::Register, ArgType::Register, ArgType::Register],
        AsmInstruction::SetBit => seq![ArgType::Register, ArgType::Any, ArgType::Any],
        AsmInstruction::BitCheck => seq![ArgType::Register, ArgType::Any, ArgType::Register],
        AsmInstruction::Compare => seq![ArgType::Register, ArgType::Register],
        AsmInstruction::CompareSigned => seq![ArgType::Register, ArgType::Register],
        AsmInstruction::Jump => seq![ArgType::Any],
        AsmInstruction::Call => seq![ArgType::Any],
        AsmInstruction::JumpEquals => seq![ArgType::Any],
        AsmInstruction::CallEquals => seq![ArgType::Any],
        AsmInstruction::JumpNotEquals => seq![ArgType::Any],
        AsmInstruction::CallNotEquals => seq![ArgType::Any],
        AsmInstruction::JumpLessThan => seq![ArgType::Any],
        AsmInstruction::CallLessThan => seq![ArgType::Any],
        AsmInstruction::JumpLessThanEq => seq![ArgType::Any],
        AsmInstruction::CallLessThanEq => seq![ArgType::Any],
        AsmInstruction::JumpNotLessThan => seq![ArgType::Any],
        AsmInstruction::CallNotLessThan => seq![ArgType::Any],
        AsmInstruction::JumpGreaterThan => seq![ArgType::Any],
        AsmInstruction::CallGreaterThan => seq![ArgType::Any],
        AsmInstruction::JumpGreaterThanEq => seq![ArgType::Any],
        AsmInstruction::CallGreaterThanEq => seq![ArgType::Any],
        AsmInstruction::JumpNotGreaterThan => seq![ArgType::Any],
        AsmInstruction::CallNotGreaterThan => seq![ArgType::Any],
        AsmInstruction::JumpZero => seq![ArgType::Any],
        AsmInstruction::CallZero => seq![ArgType::Any],
        AsmInstruction::JumpOverflow => seq![ArgType::Any],
        AsmInstruction::CallOverflow => seq![ArgType::Any],
        AsmInstruction::JumpCarry => seq![ArgType::Any],
        AsmInstruction::CallCarry => seq![ArgType::Any],
    }
}

/// Builds the expected slots for one opcode.
fn signature(op: AsmInstruction) -> (r: Vec<ArgType>)
    ensures
        r@ == spec_signature(op),
{
    let mut v: Vec<ArgType> = Vec::new();
    match op {
        AsmInstruction::Halt
        | AsmInstruction::NoOperation
        | AsmInstruction::Reset
        | AsmInstruction::ReturnInterrupt
        | AsmInstruction::Return
        | AsmInstruction::ReturnCarry
        | AsmInstruction::ReturnOverflow
        | AsmInstruction::ReturnEquals
        | AsmInstruction::ReturnGreaterThan
        | AsmInstruction::ReturnGreaterThanEq
        | AsmInstruction::ReturnLessThan
        | AsmInstruction::ReturnLessThanEq
        | AsmInstruction::ReturnNotEquals
        | AsmInstruction::ReturnNotGreaterThan
        | AsmInstruction::ReturnNotLessThan
        | AsmInstruction::ReturnZero
        | AsmInstruction::CallInterrupt
        | AsmInstruction::WaitUntilInterrupt => {
        },
        AsmInstruction::SetInterruptAddress => {
            v.push(ArgType::Any);
        },
        AsmInstruction::Move => {
            v.push(ArgType::Register);
            v.push(ArgType::Any);
        },
        AsmInstruction::Store
        | AsmInstruction::StoreProgramMemory
        | AsmInstruction::Load
        | AsmInstruction::LoadProgramMemory => {
            v.push(ArgType::Register);
            v.push(ArgType::Any);
        },
        AsmInstruction::Push
        | AsmInstruction::Pop => {
            v.push(ArgType::Register);
        },
        AsmInstruction::Add
        | AsmInstruction::AddWithCarry
        | AsmInstruction::Sub
        | AsmInstruction::SubWithCarry => {
            v.push(ArgType::Register);
            v.push(ArgType::Register);
            v.push(ArgType::Register);
        },
        AsmInstruction::Negative
        | AsmInstruction::Increment
        | AsmInstruction::Decrement => {
            v.push(ArgType::Register);
        },
        AsmInstruction::And
        | AsmInstruction::Or
        | AsmInstruction::Xor => {
            v.push(ArgType::Register);
            v.push(ArgType::Register);
            v.push(ArgType::Register);
        },
        AsmInstruction::Not => {
            v.push(ArgType::Register);
            v.push(ArgType::Register);
        },
        AsmInstruction::ShiftLeft
        | AsmInstruction::ShiftRight => {
            v.push(ArgType::Register);
            v.push(ArgType::Register);
            v.push(ArgType::Register);
        },
        AsmInstruction::SetBit => {
            v.push(ArgType::Register);
            v.push(ArgType::Any);
            v.push(ArgType::Any);
        },
        AsmInstruction::BitCheck => {
            v.push(ArgType::Register);
            v.push(ArgType::Any);
            v.push(ArgType::Register);
        },
        AsmInstruction::Compare
        | AsmInstruction::CompareSigned => {
            v.push(ArgType::Register);
            v.push(ArgType::Register);
        },
        AsmInstruction::Jump
        | AsmInstruction::Call
        | AsmInstruction::JumpEquals
        | AsmInstruction::CallEquals
        | AsmInstruction::JumpNotEquals
        | AsmInstruction::CallNotEquals
        | AsmInstruction::JumpLessThan
        | AsmInstruction::CallLessThan
        | AsmInstruction::JumpLessThanEq
        | AsmInstruction::CallLessThanEq
        | AsmInstruction::JumpNotLessThan
        | AsmInstruction::CallNotLessThan
        | AsmInstruction::JumpGreaterThan
        | AsmInstruction::CallGreaterThan
        | AsmInstruction::JumpGreaterThanEq
        | AsmInstruction::CallGreaterThanEq
        | AsmInstruction::JumpNotGreaterThan
        | AsmInstruction::CallNotGreaterThan
        | AsmInstruction::JumpZero
        | AsmInstruction::CallZero
        | AsmInstruction::JumpOverflow
        | AsmInstruction::CallOverflow
        | AsmInstruction::JumpCarry
        | AsmInstruction::CallCarry => {
            v.push(ArgType::Any);
        },
    }
    proof {
        assert(v@ =~= spec_signature(op));
    }
    v
}

// ---------------------------------------------------------------------------
// The diagnostics, stated exactly: message text and position of each.
// ---------------------------------------------------------------------------

/// The bridged span of a too-many-arguments error: from the first excess
/// argument's token through the last consumed token.
pub open spec fn spec_excess_span(ins: Instruction) -> Position {
    let exp = spec_signature(ins.kind);
    let first = ins.tokens_used@[exp.len() as int + 1].position->0;
    let last = ins.tokens_used@.last().position->0;
    let diff: int = if last.chr_start >= first.chr_start {
        last.chr_start - first.chr_start
    } else {
        0
    };
    let len: int = if diff + last.length <= usize::MAX {
        diff + last.length
    } else {
        usize::MAX as int
    };
    Position {
        line: ins.tokens_used@[0].position->0.line,
        chr_start: first.chr_start,
        length: len as usize,
    }
}

pub open spec fn spec_too_many_msg(expected: int, got: int) -> Seq<char> {
    "Too many arguments, expected: "@ + spec_decimal(expected) + ", got: "@ + spec_decimal(got)
        + "."@
}

pub open spec fn spec_too_few_msg(expected: int, got: int) -> Seq<char> {
    "Not enough arguments, expected: "@ + spec_decimal(expected) + ", got: "@ + spec_decimal(got)
        + "."@
}

pub open spec fn spec_mismatch_msg(expected: ArgType, got: Argument) -> Seq<char> {
    "Invalid argument type, expected: "@ + expected.spec_name() + ", got: "@ + (if got.spec_is_register() {
        "Register"@
    } else {
        "Integer"@
    }) + "."@
}

/// The per-slot diagnostics of an instruction whose arity is right: one error
/// for each argument that does not fit its slot, at that argument's token.
pub open spec fn spec_arg_diags(ins: Instruction, i: int) -> Seq<(Seq<char>, Position)>
    decreases spec_signature(ins.kind).len() - i,
{
    let exp = spec_signature(ins.kind);
    if i < 0 || i >= exp.len() {
        Seq::empty()
    } else {
        let rest = spec_arg_diags(ins, i + 1);
        if !spec_arg_matches(ins.args@[i], exp[i]) {
            seq![(spec_mismatch_msg(exp[i], ins.args@[i]), ins.tokens_used@[i + 1].position->0)]
                + rest
        } else {
            rest
        }
    }
}

/// Every diagnostic one instruction gets: an arity error alone, or one error
/// per ill-fitting argument.
pub open spec fn spec_instruction_diags(ins: Instruction) -> Seq<(Seq<char>, Position)> {
    let exp = spec_signature(ins.kind);
    if ins.args@.len() > exp.len() {
        seq![(spec_too_many_msg(exp.len() as int, ins.args@.len() as int), spec_excess_span(ins))]
    } else if ins.args@.len() < exp.len() {
        seq![
            (
                spec_too_few_msg(exp.len() as int, ins.args@.len() as int),
                ins.tokens_used@[0].position->0,
            ),
        ]
    } else {
        spec_arg_diags(ins, 0)
    }
}

pub open spec fn spec_element_diags(e: ProgramElement) -> Seq<(Seq<char>, Position)> {
    match e {
        ProgramElement::Instruction(i) => spec_instruction_diags(i),
        _ => Seq::empty(),
    }
}

pub open spec fn spec_segment_diags(elems: Seq<ProgramElement>, i: int) -> Seq<
    (Seq<char>, Position),
>
    decreases elems.len() - i,
{
    if i < 0 || i >= elems.len() {
        Seq::empty()
    } else {
        spec_element_diags(elems[i]) + spec_segment_diags(elems, i + 1)
    }
}

/// Every diagnostic of the whole tree, segment by segment, element by element.
pub open spec fn spec_tree_diags(segs: Seq<ProgramSegment>, i: int) -> Seq<(Seq<char>, Position)>
    decreases segs.len() - i,
{
    if i < 0 || i >= segs.len() {
        Seq::empty()
    } else {
        spec_segment_diags(segs[i].elements@, 0) + spec_tree_diags(segs, i + 1)
    }
}

/// The view under which the exact statements are made: message text and
/// position of a diagnostic.
pub open spec fn spec_diag_view(e: HeliumError) -> (Seq<char>, Position) {
    (e.message@, e.pos)
}

fn decimal_of(n: usize) -> (r: String)
    ensures
        r@ == spec_decimal(n as int),
{
    u64_to_string(n as u64)
}

/// Checks one instruction against its expected slots.
fn validate(instruction: &Instruction) -> (r: Vec<HeliumError>)
    requires
        instruction.tokens_align(),
    ensures
        r@.map_values(|e: HeliumError| spec_diag_view(e)) =~~= spec_instruction_diags(
            *instruction,
        ),
{
    let expectation = signature(instruction.kind);
    let mut errors: Vec<HeliumError> = Vec::new();
    if instruction.args.len() != expectation.len() {
        if instruction.args.len() > expectation.len() {
            let last = instruction.tokens_used[instruction.tokens_used.len() - 1].position.unwrap();
            let first = instruction.tokens_used[expectation.len() + 1].position.unwrap();
            let diff: usize = if last.chr_start >= first.chr_start {
                last.chr_start - first.chr_start
            } else {
                0
            };
            let len_between: usize = if diff <= usize::MAX - last.length {
                diff + last.length
            } else {
                usize::MAX
            };
            let pos = Position::new(
                instruction.tokens_used[0].position.unwrap().line,
                first.chr_start,
                len_between,
            );
            let msg = String::from_str("Too many arguments, expected: ").concat(
                decimal_of(expectation.len()).as_str(),
            ).concat(", got: ").concat(decimal_of(instruction.args.len()).as_str()).concat(".");
            errors.push(HeliumError::new(msg, pos));
        } else {
            let first_pos = instruction.tokens_used[0].position.unwrap();
            let msg = String::from_str("Not enough arguments, expected: ").concat(
                decimal_of(expectation.len()).as_str(),
            ).concat(", got: ").concat(decimal_of(instruction.args.len()).as_str()).concat(".");
            errors.push(HeliumError::new(msg, first_pos));
        }
        proof {
            assert(errors@.map_values(|e: HeliumError| spec_diag_view(e)) =~~=
                spec_instruction_diags(*instruction));
        }
        return errors;
    }
    let mut index: usize = 0;
    loop
        invariant
            instruction.tokens_align(),
            instruction.args@.len() == expectation@.len(),
            expectation@ == spec_signature(instruction.kind),
            index <= expectation@.len(),
            errors@.map_values(|e: HeliumError| spec_diag_view(e)) + spec_arg_diags(
                *instruction,
                index as int,
            ) =~~= spec_arg_diags(*instruction, 0),
        ensures
            errors@.map_values(|e: HeliumError| spec_diag_view(e)) =~~= spec_arg_diags(
                *instruction,
                0,
            ),
        decreases expectation@.len() - index,
    {
        if index >= expectation.len() {
            break;
        }
        if !arg_matches(&instruction.args[index], expectation[index]) {
            let tok_pos = instruction.tokens_used[index + 1].position.unwrap();
            let pos = Position::new(tok_pos.line, tok_pos.chr_start, tok_pos.length);
            let got = if instruction.args[index].is_register() {
                "Register"
            } else {
                "Integer"
            };
            let msg = String::from_str("Invalid argument type, expected: ").concat(
                expectation[index].name(),
            ).concat(", got: ").concat(got).concat(".");
            let ghost before = errors@;
            errors.push(HeliumError::new(msg, pos));
            proof {
                assert(errors@.map_values(|e: HeliumError| spec_diag_view(e)) =~~=
                    before.map_values(|e: HeliumError| spec_diag_view(e)).push(
                    (msg@, pos),
                ));
            }
        }
        index += 1;
    }
    errors
}

fn validate_instruction(instruction: &Instruction) -> (r: Vec<HeliumError>)
    requires
        instruction.tokens_align(),
    ensures
        r@.map_values(|e: HeliumError| spec_diag_view(e)) =~~= spec_instruction_diags(
            *instruction,
        ),
{
    validate(instruction)
}

/// Walks every instruction of every segment and returns the full list of
/// diagnostics; it never stops at the first bad instruction.
pub fn validate_tree(tree: &ProgramTree) -> (r: Vec<HeliumError>)
    requires
        forall|k: int| 0 <= k < tree.segments@.len() ==> (#[trigger] tree.segments@[k]).wf(),
    ensures
        r@.map_values(|e: HeliumError| spec_diag_view(e)) =~~= spec_tree_diags(tree.segments@, 0),
{
    let mut errors: Vec<HeliumError> = Vec::new();
    let mut s: usize = 0;
    loop
        invariant
            forall|k: int| 0 <= k < tree.segments@.len() ==> (#[trigger] tree.segments@[k]).wf(),
            s <= tree.segments@.len(),
            errors@.map_values(|e: HeliumError| spec_diag_view(e)) + spec_tree_diags(
                tree.segments@,
                s as int,
            ) =~~= spec_tree_diags(tree.segments@, 0),
        ensures
            errors@.map_values(|e: HeliumError| spec_diag_view(e)) =~~= spec_tree_diags(
                tree.segments@,
                0,
            ),
        decreases tree.segments@.len() - s,
    {
        if s >= tree.segments.len() {
            break;
        }
        let seg = &tree.segments[s];
        let mut e: usize = 0;
        loop
            invariant
                seg == tree.segments@[s as int],
                seg.wf(),
                s < tree.segments@.len(),
                e <= seg.elements@.len(),
                errors@.map_values(|x: HeliumError| spec_diag_view(x)) + spec_segment_diags(
                    seg.elements@,
                    e as int,
                ) + spec_tree_diags(tree.segments@, s as int + 1) =~~= spec_tree_diags(
                    tree.segments@,
                    0,
                ),
            ensures
                errors@.map_values(|x: HeliumError| spec_diag_view(x)) + spec_tree_diags(
                    tree.segments@,
                    s as int + 1,
                ) =~~= spec_tree_diags(tree.segments@, 0),
            decreases seg.elements@.len() - e,
        {
            if e >= seg.elements.len() {
                break;
            }
            match &seg.elements[e] {
                ProgramElement::Instruction(ins) => {
                    let ghost before = errors@;
                    let mut more = validate_instruction(ins);
                    let ghost morev = more@;
                    errors.append(&mut more);
                    proof {
                        assert(errors@ =~= before + morev);
                        assert(errors@.map_values(|x: HeliumError| spec_diag_view(x)) =~~=
                            before.map_values(|x: HeliumError| spec_diag_view(x))
                            + morev.map_values(|x: HeliumError| spec_diag_view(x)));
                    }
                },
                _ => {},
            }
            e += 1;
        }
        s += 1;
    }
    errors
}

} // verus!
