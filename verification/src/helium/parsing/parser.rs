//! The parser: consumes one file's token stream and grows the shared program
//! tree, recognizing constants, labels, directives, instructions and bare
//! identifiers or integers. Errors accumulate; parsing never stops early.
//!
//! Reading the files named by import directives is I/O and stays with the
//! caller: one file's pass collects the pending names, the driver reads and
//! lexes each and parses it into the same tree with another `parse_file`
//! call, and the root driver finishes with `ProgramTree::complete` and
//! `ProgramTree::check_all_resolved`.

use crate::helium::instructions::{AsmInstruction, Argument, Instruction};
use crate::helium::parsing::constant_type::ConstantType;
use crate::helium::parsing::defaults::is_default_name;
use crate::helium::parsing::error::ParserError;
use crate::helium::parsing::program_element::ProgramElement;
use crate::helium::parsing::program_segment::ProgramSegment;
use crate::helium::parsing::program_tree::{
    consts_model, insert_name_sorted, lemma_consts_model_bind, lemma_unresolved_model,
    model_unresolved, names_sorted, spec_inject_defaults, spec_lookup, spec_name_mem,
    spec_unresolved, ProgramTree,
};
use crate::helium::text::{spec_decimal, str_eq, u64_to_string};
use crate::helium::tokens::{Token, TokenKind, ValueKind};
use vstd::prelude::*;

verus! {

// ---------------------------------------------------------------------------
// Small specs over token streams.
// ---------------------------------------------------------------------------

/// The payload of a word-carrying token.
pub open spec fn spec_word_of(t: Token) -> Seq<char> {
    match t.value {
        Some(ValueKind::Word(w)) => w@,
        _ => Seq::empty(),
    }
}

/// The payload of an integer-carrying token.
pub open spec fn spec_int_of(t: Token) -> u16 {
    match t.value {
        Some(ValueKind::Integer(i)) => i,
        _ => 0,
    }
}

/// The payload of a mnemonic token.
pub open spec fn spec_op_of(t: Token) -> AsmInstruction {
    match t.value {
        Some(ValueKind::Instruction(i)) => i,
        _ => AsmInstruction::Halt,
    }
}

/// A token that only separates statements.
pub open spec fn spec_sep_token(t: Token) -> bool {
    t.kind == TokenKind::Newline || t.kind == TokenKind::Comma || t.kind == TokenKind::SemiColon
}

/// The first position at or after `i` that does not hold a separator.
pub open spec fn spec_sep_end(toks: Seq<Token>, i: int) -> int
    decreases toks.len() - i,
{
    if i < 0 || i >= toks.len() {
        i
    } else if spec_sep_token(toks[i]) {
        spec_sep_end(toks, i + 1)
    } else {
        i
    }
}

/// Where resynchronization after a bad directive stops: just past the next
/// line terminator or semicolon, or at the end of the input.
pub open spec fn spec_expr_end(toks: Seq<Token>, i: int) -> int
    decreases toks.len() - i,
{
    if i < 0 || i >= toks.len() {
        i
    } else if toks[i].kind == TokenKind::SemiColon || toks[i].kind == TokenKind::Newline {
        i + 1
    } else {
        spec_expr_end(toks, i + 1)
    }
}

/// Resolution is monotone: a name once known stays known, and a name once
/// resolved keeps its state. (A second declaration of a name is rejected:
/// the first wins.)
pub open spec fn preserves_resolved(
    a: Seq<(String, ConstantType)>,
    b: Seq<(String, ConstantType)>,
) -> bool {
    forall|n: Seq<char>|
        (#[trigger] spec_lookup(a, n)) matches Some(v) ==> (spec_lookup(b, n) is Some && (v
            != ConstantType::Unknown ==> spec_lookup(b, n) == Some(v)))
}

proof fn lemma_preserves_refl(a: Seq<(String, ConstantType)>)
    ensures
        preserves_resolved(a, a),
{
}

proof fn lemma_preserves_trans(
    a: Seq<(String, ConstantType)>,
    b: Seq<(String, ConstantType)>,
    c: Seq<(String, ConstantType)>,
)
    requires
        preserves_resolved(a, b),
        preserves_resolved(b, c),
    ensures
        preserves_resolved(a, c),
{
    assert forall|n: Seq<char>| (#[trigger] spec_lookup(a, n)) is Some implies (spec_lookup(
        c,
        n,
    ) is Some && (spec_lookup(a, n) != Some(ConstantType::Unknown) ==> spec_lookup(c, n)
        == spec_lookup(a, n))) by {
        assert(spec_lookup(b, n) is Some);
    }
}


/// An argument's content: register-like or integer-like, a literal or a name.
pub ghost struct ArgM {
    pub register: bool,
    pub num: Option<u16>,
    pub name: Option<Seq<char>>,
}

pub open spec fn arg_m(a: Argument) -> ArgM {
    match a {
        Argument::Register(i) => ArgM { register: true, num: Some(i), name: None },
        Argument::RegisterIdentifier(w) => ArgM { register: true, num: None, name: Some(w@) },
        Argument::Immediate(i) => ArgM { register: false, num: Some(i), name: None },
        Argument::ImmediateIdentifier(w) => ArgM { register: false, num: None, name: Some(w@) },
    }
}

/// The argument one token contributes.
pub open spec fn spec_arg_of(t: Token) -> ArgM {
    if t.kind == TokenKind::Integer {
        ArgM { register: false, num: Some(spec_int_of(t)), name: None }
    } else if t.kind == TokenKind::Identifier {
        ArgM { register: false, num: None, name: Some(spec_word_of(t)) }
    } else {
        match t.value {
            Some(ValueKind::Integer(i)) => ArgM { register: true, num: Some(i), name: None },
            _ => ArgM { register: true, num: None, name: Some(spec_word_of(t)) },
        }
    }
}

/// What a register token standing on its own as a statement is reported as:
/// its payload, a number or a name, spelled inside the message.
pub open spec fn spec_bare_register_msg(t: Token) -> Seq<char> {
    "Unexpected Token: Register("@ + (match t.value {
        Some(ValueKind::Integer(i)) => spec_decimal(i as int),
        _ => spec_word_of(t),
    }) + ")"@
}

/// What an alien token inside an instruction is reported as.
pub open spec fn spec_stmt_mismatch_msg(k: TokenKind) -> Seq<char> {
    "Mismatched Types. expected: Identifier, Register Or Integer; found: "@ + k.spec_name()
}

/// The scan of an instruction's argument tokens: commas separate, alien kinds
/// are reported and skipped, and the statement ends before a line terminator
/// or semicolon (or at the end of the input). Yields the arguments, the
/// messages of the reports, and where the scan stops.
pub open spec fn spec_instr_scan(toks: Seq<Token>, i: int) -> (Seq<ArgM>, Seq<Seq<char>>, int)
    decreases toks.len() - i,
{
    if i < 0 || i >= toks.len() || toks[i].kind == TokenKind::Newline || toks[i].kind
        == TokenKind::SemiColon {
        (Seq::empty(), Seq::empty(), i)
    } else {
        let rest = spec_instr_scan(toks, i + 1);
        let t = toks[i];
        if t.kind == TokenKind::Comma {
            rest
        } else if t.kind != TokenKind::Identifier && t.kind != TokenKind::Integer && t.kind
            != TokenKind::Register {
            (rest.0, seq![spec_stmt_mismatch_msg(t.kind)] + rest.1, rest.2)
        } else {
            (seq![spec_arg_of(t)] + rest.0, rest.1, rest.2)
        }
    }
}


/// The names an argument scan registers: each name argument not yet bound is
/// bound as unresolved, in scan order.
pub open spec fn spec_register_args(
    m: Map<Seq<char>, ConstantType>,
    args: Seq<ArgM>,
) -> Map<Seq<char>, ConstantType>
    decreases args.len(),
{
    if args.len() == 0 {
        m
    } else {
        let m2 = match args[0].name {
            Some(n) => if m.contains_key(n) {
                m
            } else {
                m.insert(n, ConstantType::Unknown)
            },
            None => m,
        };
        spec_register_args(m2, args.drop_first())
    }
}

/// Concatenating nothing changes nothing.
proof fn lemma_concat_empty_args(a: Seq<ArgM>)
    ensures
        a + Seq::<ArgM>::empty() =~~= a,
{
}

proof fn lemma_concat_empty_msgs(a: Seq<PErrM>)
    ensures
        a + Seq::<PErrM>::empty() =~~= a,
{
}

/// One argument moves from the head of the remaining scan into the list.
proof fn lemma_args_push_glue(
    before: Seq<Argument>,
    after: Seq<Argument>,
    am: ArgM,
    rest: Seq<ArgM>,
)
    requires
        after == before.push(after.last()),
        after.len() == before.len() + 1,
        arg_m(after.last()) == am,
    ensures
        after.map_values(|a: Argument| arg_m(a)) + rest =~~= before.map_values(
            |a: Argument| arg_m(a),
        ) + (seq![am] + rest),
{
    assert(after.map_values(|a: Argument| arg_m(a)) =~~= before.map_values(
        |a: Argument| arg_m(a),
    ).push(am));
}


// ---------------------------------------------------------------------------
// Error content: what each recorded error says, so contracts can name the
// exact diagnostic a statement leaves behind.
// ---------------------------------------------------------------------------

/// A parse error's content.
#[verifier::ext_equal]
pub ghost enum PErrM {
    Eof,
    Mismatched { expected: TokenKind, got: TokenKind },
    Collision { file: Seq<char>, name: Seq<char> },
    Text(Seq<char>),
    BadDirective(Seq<char>),
    UnknownName(Seq<char>),
    MissingFile(Seq<char>),
    UnreadableFile(Seq<char>),
    WrappedLex(Seq<char>),
}

pub open spec fn perr_m(e: ParserError) -> PErrM {
    match e {
        ParserError::UnexpectedEOF => PErrM::Eof,
        ParserError::MismatchedTypes { expected, got } => PErrM::Mismatched { expected, got },
        ParserError::ConstantCollision { file, name } => PErrM::Collision {
            file: file@,
            name: name@,
        },
        ParserError::UnexpectedToken { kind } => PErrM::Mismatched { expected: kind, got: kind },
        ParserError::Named { error } => PErrM::Text(error@),
        ParserError::UnknownDirective { name } => PErrM::BadDirective(name@),
        ParserError::UnknownIdentifier { name } => PErrM::UnknownName(name@),
        ParserError::FileNotFound(n) => PErrM::MissingFile(n@),
        ParserError::FileError(n) => PErrM::UnreadableFile(n@),
        ParserError::ImportLexError(e) => PErrM::WrappedLex(e.message@),
    }
}


// ---------------------------------------------------------------------------
// The statement machine: what each statement does to the tree and to the
// parser's collections, and what one file's pass folds up to.
// ---------------------------------------------------------------------------

/// A segment's content, as the specification speaks of it.
#[verifier::ext_equal]
pub ghost struct SegM {
    pub name: Seq<char>,
    pub origin: Option<u16>,
    pub elements: Seq<ElemM>,
}

/// A program element's content.
#[verifier::ext_equal]
pub ghost enum ElemM {
    Ins { op: AsmInstruction, args: Seq<ArgM> },
    Ref(Seq<char>),
    Imm(u16),
}

pub open spec fn elem_m(e: ProgramElement) -> ElemM {
    match e {
        ProgramElement::Instruction(i) => ElemM::Ins {
            op: i.kind,
            args: i.args@.map_values(|a: Argument| arg_m(a)),
        },
        ProgramElement::Identifier(n) => ElemM::Ref(n@),
        ProgramElement::Immediate(v) => ElemM::Imm(v),
    }
}

pub open spec fn seg_m(s: ProgramSegment) -> SegM {
    SegM {
        name: s.name@,
        origin: s.origin,
        elements: s.elements@.map_values(|e: ProgramElement| elem_m(e)),
    }
}

/// The set of names a pending-import list holds.
pub open spec fn pending_model(s: Seq<String>) -> Set<Seq<char>> {
    Set::new(|n: Seq<char>| spec_name_mem(s, n))
}

/// The statement machine's state: the symbol table as a map, the segments
/// closed so far and the one under construction, the errors and pending
/// imports, the flags, and the cursor. A step starts `closed` and `errs`
/// empty, so after it they hold the step's own contribution.
#[verifier::ext_equal]
pub ghost struct PStep {
    pub consts: Map<Seq<char>, ConstantType>,
    pub closed: Seq<SegM>,
    pub cur: SegM,
    pub errs: Seq<PErrM>,
    pub pending: Set<Seq<char>>,
    pub allow: bool,
    pub auto: u32,
    pub pos: int,
}

/// The machine's state as a parser and a tree hold it, a step about to start.
pub closed spec fn pre_step(tree: ProgramTree, p: Parser) -> PStep {
    PStep {
        consts: consts_model(tree.constants@),
        closed: Seq::empty(),
        cur: seg_m(p.current_segment),
        errs: Seq::empty(),
        pending: pending_model(p.pending_imports@),
        allow: tree.allow_defaults,
        auto: tree.auto_label_id,
        pos: p.pos as int,
    }
}

/// What it means for a statement's outcome to match the machine's: the state
/// components equal `st1`, whose `closed` and `errs` are the deltas.
spec fn handler_step(
    pre_tree: ProgramTree,
    post_tree: ProgramTree,
    pre_p: Parser,
    post_p: Parser,
    st1: PStep,
) -> bool {
    &&& post_p.pos == st1.pos
    &&& consts_model(post_tree.constants@) =~= st1.consts
    &&& post_tree.segments@.map_values(|x: ProgramSegment| seg_m(x)) =~~= pre_tree.segments@.map_values(
        |x: ProgramSegment| seg_m(x),
    ) + st1.closed
    &&& seg_m(post_p.current_segment) =~~= st1.cur
    &&& post_p.errors@.map_values(|e: ParserError| perr_m(e)) =~~= pre_p.errors@.map_values(
        |e: ParserError| perr_m(e),
    ) + st1.errs
    &&& pending_model(post_p.pending_imports@) =~= st1.pending
    &&& post_tree.allow_defaults == st1.allow
    &&& post_tree.auto_label_id == st1.auto
}

/// `const <name> <integer>`, the keyword already consumed.
pub open spec fn spec_constant_stmt(toks: Seq<Token>, fname: Seq<char>, st: PStep) -> PStep {
    let i = st.pos;
    if i >= toks.len() {
        PStep { errs: st.errs.push(PErrM::Eof), ..st }
    } else if toks[i].kind != TokenKind::Identifier {
        PStep {
            errs: st.errs.push(
                PErrM::Mismatched { expected: TokenKind::Identifier, got: toks[i].kind },
            ),
            ..st
        }
    } else if i + 1 >= toks.len() {
        PStep { pos: i + 1, errs: st.errs.push(PErrM::Eof), ..st }
    } else if toks[i + 1].kind != TokenKind::Integer {
        PStep {
            pos: i + 1,
            errs: st.errs.push(
                PErrM::Mismatched { expected: TokenKind::Integer, got: toks[i + 1].kind },
            ),
            ..st
        }
    } else {
        let name = spec_word_of(toks[i]);
        let v = spec_int_of(toks[i + 1]);
        if st.consts.contains_key(name) {
            PStep { pos: i + 2, errs: st.errs.push(PErrM::Collision { file: fname, name }), ..st }
        } else {
            PStep { pos: i + 2, consts: st.consts.insert(name, ConstantType::Value(v)), ..st }
        }
    }
}

/// `<name>:`: the label token already consumed.
pub open spec fn spec_label_stmt(t: Token, fname: Seq<char>, st: PStep) -> PStep {
    let name = spec_word_of(t);
    if st.consts.contains_key(name) {
        PStep { errs: st.errs.push(PErrM::Collision { file: fname, name }), ..st }
    } else {
        PStep {
            consts: st.consts.insert(name, ConstantType::Label),
            closed: st.closed.push(st.cur),
            cur: SegM { name, origin: None, elements: Seq::empty() },
            ..st
        }
    }
}

/// A bare identifier.
pub open spec fn spec_identifier_stmt(t: Token, st: PStep) -> PStep {
    let name = spec_word_of(t);
    PStep {
        consts: if st.consts.contains_key(name) {
            st.consts
        } else {
            st.consts.insert(name, ConstantType::Unknown)
        },
        cur: SegM { elements: st.cur.elements.push(ElemM::Ref(name)), ..st.cur },
        ..st
    }
}

/// A bare integer.
pub open spec fn spec_integer_stmt(t: Token, st: PStep) -> PStep {
    PStep {
        cur: SegM { elements: st.cur.elements.push(ElemM::Imm(spec_int_of(t))), ..st.cur },
        ..st
    }
}

/// A bare register token: never legal as a statement.
pub open spec fn spec_register_stmt(t: Token, st: PStep) -> PStep {
    PStep { errs: st.errs.push(PErrM::Text(spec_bare_register_msg(t))), ..st }
}

/// An instruction statement, its mnemonic token already consumed.
pub open spec fn spec_instruction_stmt(toks: Seq<Token>, t: Token, st: PStep) -> PStep {
    let scan = spec_instr_scan(toks, st.pos);
    PStep {
        pos: scan.2,
        consts: spec_register_args(st.consts, scan.0),
        cur: SegM {
            elements: st.cur.elements.push(ElemM::Ins { op: spec_op_of(t), args: scan.0 }),
            ..st.cur
        },
        errs: st.errs + scan.1.map_values(|m: Seq<char>| PErrM::Text(m)),
        ..st
    }
}

/// `#skipto <address> [label:]`, the directive token already consumed.
pub open spec fn spec_skipto_stmt(toks: Seq<Token>, fname: Seq<char>, st: PStep) -> PStep {
    let i = st.pos;
    if i >= toks.len() {
        PStep { errs: st.errs.push(PErrM::Eof), ..st }
    } else if toks[i].kind != TokenKind::Integer {
        PStep {
            errs: st.errs.push(
                PErrM::Mismatched { expected: TokenKind::Integer, got: toks[i].kind },
            ),
            ..st
        }
    } else {
        let addr = spec_int_of(toks[i]);
        let i2 = spec_sep_end(toks, i + 1);
        if i2 >= toks.len() {
            PStep { pos: i2, errs: st.errs.push(PErrM::Eof), ..st }
        } else if toks[i2].kind != TokenKind::Label {
            PStep {
                pos: i2,
                closed: st.closed.push(st.cur),
                cur: SegM {
                    name: "__auto_label_"@ + fname + "_segment_"@ + spec_decimal(st.auto as int)
                        + "__"@,
                    origin: Some(addr),
                    elements: Seq::empty(),
                },
                auto: (if st.auto == u32::MAX {
                    0u32
                } else {
                    (st.auto + 1) as u32
                }),
                ..st
            }
        } else {
            let name = spec_word_of(toks[i2]);
            if st.consts.contains_key(name) {
                PStep {
                    pos: i2 + 1,
                    errs: st.errs.push(PErrM::Collision { file: fname, name }),
                    ..st
                }
            } else {
                PStep {
                    pos: i2 + 1,
                    consts: st.consts.insert(name, ConstantType::Label),
                    closed: st.closed.push(st.cur),
                    cur: SegM { name, origin: Some(addr), elements: Seq::empty() },
                    ..st
                }
            }
        }
    }
}

/// An import directive, the directive token already consumed.
pub open spec fn spec_import_stmt(toks: Seq<Token>, merged: Seq<String>, st: PStep) -> PStep {
    let i = st.pos;
    if i >= toks.len() {
        PStep { errs: st.errs.push(PErrM::Eof), ..st }
    } else if toks[i].kind != TokenKind::Identifier {
        PStep {
            errs: st.errs.push(
                PErrM::Mismatched { expected: TokenKind::Identifier, got: toks[i].kind },
            ),
            ..st
        }
    } else {
        let name = spec_word_of(toks[i]);
        let already = spec_name_mem(merged, name) || (st.allow && is_default_name(name));
        PStep {
            pos: i + 1,
            pending: if already {
                st.pending
            } else {
                st.pending.insert(name)
            },
            ..st
        }
    }
}

/// A `#` directive, dispatched on its name.
pub open spec fn spec_directive_stmt(
    toks: Seq<Token>,
    fname: Seq<char>,
    merged: Seq<String>,
    name: Seq<char>,
    st: PStep,
) -> PStep {
    if name == "no_predec"@ {
        PStep { allow: false, ..st }
    } else if name == "skipto"@ {
        spec_skipto_stmt(toks, fname, st)
    } else if name == import_directive_name() {
        spec_import_stmt(toks, merged, st)
    } else {
        PStep {
            errs: st.errs.push(PErrM::BadDirective(name)),
            pos: spec_expr_end(toks, st.pos),
            ..st
        }
    }
}

/// One whole statement, dispatched on the token under the cursor (which every
/// case consumes first).
pub open spec fn spec_stmt_step(
    toks: Seq<Token>,
    fname: Seq<char>,
    merged: Seq<String>,
    st: PStep,
) -> PStep {
    let p = st.pos;
    let t = toks[p];
    let next = PStep { pos: p + 1, ..st };
    if t.kind == TokenKind::ConstantDeclaration {
        spec_constant_stmt(toks, fname, next)
    } else if t.kind == TokenKind::Label {
        spec_label_stmt(t, fname, next)
    } else if t.kind == TokenKind::Identifier {
        spec_identifier_stmt(t, next)
    } else if t.kind == TokenKind::Integer {
        spec_integer_stmt(t, next)
    } else if t.kind == TokenKind::Register {
        spec_register_stmt(t, next)
    } else if t.kind == TokenKind::Directive {
        spec_directive_stmt(toks, fname, merged, spec_word_of(t), next)
    } else if t.kind == TokenKind::Instruction {
        spec_instruction_stmt(toks, t, next)
    } else {
        // a separator: consumed, nothing more
        next
    }
}

/// The first declaration wins: a `const` statement naming an already-bound
/// name reports exactly one collision and leaves every binding — the named
/// one included — exactly as it was.
pub proof fn lemma_first_declaration_wins(
    toks: Seq<Token>,
    fname: Seq<char>,
    st: PStep,
    n: Seq<char>,
)
    requires
        st.consts.contains_key(n),
        0 <= st.pos,
        st.pos + 1 < toks.len(),
        toks[st.pos].kind == TokenKind::Identifier,
        spec_word_of(toks[st.pos]) == n,
        toks[st.pos + 1].kind == TokenKind::Integer,
    ensures
        spec_constant_stmt(toks, fname, st).consts == st.consts,
        spec_constant_stmt(toks, fname, st).consts[n] == st.consts[n],
        spec_constant_stmt(toks, fname, st).errs == st.errs.push(
            PErrM::Collision { file: fname, name: n },
        ),
{
}

// ---------------------------------------------------------------------------
// Small facts the statement proofs lean on.
// ---------------------------------------------------------------------------

/// Pushing one error extends its content view by that error's content.
proof fn lemma_perr_map_push(a: Seq<ParserError>, b: Seq<ParserError>)
    ensures
        b == a.push(b.last()) && b.len() == a.len() + 1 ==> b.map_values(|e: ParserError| perr_m(e))
            =~~= a.map_values(|e: ParserError| perr_m(e)).push(perr_m(b.last())),
{
    if b == a.push(b.last()) && b.len() == a.len() + 1 {
        assert(b.map_values(|e: ParserError| perr_m(e)) =~~= a.map_values(
            |e: ParserError| perr_m(e),
        ).push(perr_m(b.last())));
    }
}

/// Pushing one segment extends its content view by that segment's content.
proof fn lemma_seg_map_push(a: Seq<ProgramSegment>, b: Seq<ProgramSegment>)
    ensures
        b == a.push(b.last()) && b.len() == a.len() + 1 ==> b.map_values(
            |x: ProgramSegment| seg_m(x),
        ) =~~= a.map_values(|x: ProgramSegment| seg_m(x)).push(seg_m(b.last())),
{
    if b == a.push(b.last()) && b.len() == a.len() + 1 {
        assert(b.map_values(|x: ProgramSegment| seg_m(x)) =~~= a.map_values(
            |x: ProgramSegment| seg_m(x),
        ).push(seg_m(b.last())));
    }
}

/// Pushing one element extends its content view by that element's content.
proof fn lemma_elem_map_push(a: Seq<ProgramElement>, b: Seq<ProgramElement>)
    ensures
        b == a.push(b.last()) && b.len() == a.len() + 1 ==> b.map_values(
            |e: ProgramElement| elem_m(e),
        ) =~~= a.map_values(|e: ProgramElement| elem_m(e)).push(elem_m(b.last())),
{
    if b == a.push(b.last()) && b.len() == a.len() + 1 {
        assert(b.map_values(|e: ProgramElement| elem_m(e)) =~~= a.map_values(
            |e: ProgramElement| elem_m(e),
        ).push(elem_m(b.last())));
    }
}

/// A lone appended item, seen as a delta.
proof fn lemma_push_as_delta_perr(a: Seq<PErrM>, x: PErrM)
    ensures
        a.push(x) =~~= a + Seq::<PErrM>::empty().push(x),
{
}

proof fn lemma_push_as_delta_seg(a: Seq<SegM>, x: SegM)
    ensures
        a.push(x) =~~= a + Seq::<SegM>::empty().push(x),
{
}

proof fn lemma_concat_empty_perr(a: Seq<PErrM>)
    ensures
        a + Seq::<PErrM>::empty() =~~= a,
{
}

proof fn lemma_concat_empty_seg(a: Seq<SegM>)
    ensures
        a + Seq::<SegM>::empty() =~~= a,
{
}

/// The frame facts every statement exit needs: unchanged or once-pushed error
/// and segment lists, seen as deltas, and the lookup/model bridge.
proof fn lemma_step_frames(
    errs0: Seq<ParserError>,
    errs1: Seq<ParserError>,
    segs0: Seq<ProgramSegment>,
    segs1: Seq<ProgramSegment>,
    c0: Seq<(String, ConstantType)>,
)
    ensures
        errs1 == errs0 ==> errs1.map_values(|e: ParserError| perr_m(e)) =~~= errs0.map_values(
            |e: ParserError| perr_m(e),
        ) + Seq::<PErrM>::empty(),
        errs1 == errs0.push(errs1.last()) && errs1.len() == errs0.len() + 1 ==> errs1.map_values(
            |e: ParserError| perr_m(e),
        ) =~~= errs0.map_values(|e: ParserError| perr_m(e)) + Seq::<PErrM>::empty().push(
            perr_m(errs1.last()),
        ),
        segs1 == segs0 ==> segs1.map_values(|x: ProgramSegment| seg_m(x)) =~~= segs0.map_values(
            |x: ProgramSegment| seg_m(x),
        ) + Seq::<SegM>::empty(),
        segs1 == segs0.push(segs1.last()) && segs1.len() == segs0.len() + 1 ==> segs1.map_values(
            |x: ProgramSegment| seg_m(x),
        ) =~~= segs0.map_values(|x: ProgramSegment| seg_m(x)) + Seq::<SegM>::empty().push(
            seg_m(segs1.last()),
        ),
        forall|n: Seq<char>|
            consts_model(c0).contains_key(n) == (#[trigger] spec_lookup(c0, n) is Some),
{
    lemma_perr_map_push(errs0, errs1);
    lemma_seg_map_push(segs0, segs1);
    lemma_push_as_delta_perr(errs0.map_values(|e: ParserError| perr_m(e)), perr_m(errs1.last()));
    lemma_push_as_delta_seg(segs0.map_values(|x: ProgramSegment| seg_m(x)), seg_m(segs1.last()));
    lemma_concat_empty_perr(errs0.map_values(|e: ParserError| perr_m(e)));
    lemma_concat_empty_seg(segs0.map_values(|x: ProgramSegment| seg_m(x)));
}

/// The name-to-state view and the lookups agree on which names are bound.
proof fn lemma_consts_model_dom(c: Seq<(String, ConstantType)>)
    ensures
        forall|n: Seq<char>|
            consts_model(c).contains_key(n) == (#[trigger] spec_lookup(c, n) is Some),
{
}


/// Cursor bounds of the scans a statement can make.
proof fn lemma_sep_end_bounds(toks: Seq<Token>, i: int)
    requires
        0 <= i <= toks.len(),
    ensures
        i <= spec_sep_end(toks, i) <= toks.len(),
    decreases toks.len() - i,
{
    if i < toks.len() && spec_sep_token(toks[i]) {
        lemma_sep_end_bounds(toks, i + 1);
    }
}

proof fn lemma_expr_end_bounds(toks: Seq<Token>, i: int)
    requires
        0 <= i <= toks.len(),
    ensures
        i <= spec_expr_end(toks, i) <= toks.len(),
    decreases toks.len() - i,
{
    if i < toks.len() && !(toks[i].kind == TokenKind::SemiColon || toks[i].kind
        == TokenKind::Newline) {
        lemma_expr_end_bounds(toks, i + 1);
    }
}

proof fn lemma_instr_scan_bounds(toks: Seq<Token>, i: int)
    requires
        0 <= i <= toks.len(),
    ensures
        i <= spec_instr_scan(toks, i).2 <= toks.len(),
    decreases toks.len() - i,
{
    if !(i >= toks.len() || toks[i].kind == TokenKind::Newline || toks[i].kind
        == TokenKind::SemiColon) {
        lemma_instr_scan_bounds(toks, i + 1);
    }
}

/// A statement starting inside the text moves the cursor forward and keeps it
/// inside.
proof fn lemma_stmt_step_progress(toks: Seq<Token>, fname: Seq<char>, merged: Seq<String>, st: PStep)
    requires
        0 <= st.pos < toks.len(),
    ensures
        st.pos < spec_stmt_step(toks, fname, merged, st).pos <= toks.len(),
{
    let p = st.pos;
    lemma_expr_end_bounds(toks, p + 1);
    lemma_instr_scan_bounds(toks, p + 1);
    if p + 2 <= toks.len() {
        // the skipto scan starts past the directive and its address token
        lemma_sep_end_bounds(toks, p + 2);
    }
}

/// One file's pass, statement by statement: each step's own contribution is
/// taken from an empty delta and appended, so `closed` and `errs` accumulate
/// everything the pass leaves behind.
pub open spec fn spec_file_fold(
    toks: Seq<Token>,
    fname: Seq<char>,
    merged: Seq<String>,
    st: PStep,
) -> PStep
    decreases toks.len() - st.pos
        when 0 <= st.pos
        via spec_file_fold_decreases
{
    if st.pos >= toks.len() {
        st
    } else {
        let d = spec_stmt_step(
            toks,
            fname,
            merged,
            PStep { closed: Seq::empty(), errs: Seq::empty(), ..st },
        );
        spec_file_fold(
            toks,
            fname,
            merged,
            PStep { closed: st.closed + d.closed, errs: st.errs + d.errs, ..d },
        )
    }
}

#[via_fn]
proof fn spec_file_fold_decreases(toks: Seq<Token>, fname: Seq<char>, merged: Seq<String>, st: PStep) {
    if 0 <= st.pos && st.pos < toks.len() {
        lemma_stmt_step_progress(
            toks,
            fname,
            merged,
            PStep { closed: Seq::empty(), errs: Seq::empty(), ..st },
        );
    }
}

// ---------------------------------------------------------------------------
// The parser.
// ---------------------------------------------------------------------------

/// What one file's pass leaves behind: the file's own parse errors and the
/// names its import directives asked for, in ascending order.
pub struct FileParse {
    pub errors: Vec<ParserError>,
    pub imports: Vec<String>,
}

pub struct Parser {
    file_name: String,
    tokens: Vec<Token>,
    /// Cursor into `tokens`.
    pos: usize,
    errors: Vec<ParserError>,
    current_segment: ProgramSegment,
    /// The imports this file asked for, collected during its own pass.
    pending_imports: Vec<String>,
}

impl Parser {
    pub closed spec fn spec_tokens(&self) -> Seq<Token> {
        self.tokens@
    }

    pub closed spec fn spec_file_name(&self) -> Seq<char> {
        self.file_name@
    }

    /// The cursor into the token stream.
    pub closed spec fn spec_pos(&self) -> int {
        self.pos as int
    }

    /// The errors recorded so far.
    pub closed spec fn spec_errors(&self) -> Seq<ParserError> {
        self.errors@
    }

    /// The pending imports collected so far.
    pub closed spec fn spec_pending(&self) -> Seq<String> {
        self.pending_imports@
    }

    /// The segment under construction.
    pub closed spec fn spec_segment(&self) -> ProgramSegment {
        self.current_segment
    }

    /// The file's name, as the value the tree's merged-file set starts from.
    pub closed spec fn spec_file_string(&self) -> String {
        self.file_name
    }

    /// Every token has a position and a payload matching its kind, the
    /// cursor is inside the stream, and what has been collected is sound.
    pub closed spec fn wf(&self) -> bool {
        &&& self.pos <= self.tokens@.len()
        &&& forall|k: int| 0 <= k < self.tokens@.len() ==> (#[trigger] self.tokens@[k]).wf()
        &&& self.current_segment.wf()
        &&& names_sorted(self.pending_imports@)
    }

    /// A parser over one file's tokens, as the lexer made them: the cursor at
    /// the stream's start, nothing recorded yet, and the initial segment named
    /// after the program entry.
    pub fn new(tokens: Vec<Token>, file_name: String) -> (p: Parser)
        requires
            forall|k: int| 0 <= k < tokens@.len() ==> (#[trigger] tokens@[k]).wf(),
        ensures
            p.wf(),
            p.spec_tokens() == tokens@,
            p.spec_file_name() == file_name@,
            p.spec_pos() == 0,
            p.spec_errors() == Seq::<ParserError>::empty(),
            p.spec_pending() == Seq::<String>::empty(),
            p.spec_segment().name@ == "entry"@,
            p.spec_segment().origin is None,
            p.spec_segment().elements@ == Seq::<ProgramElement>::empty(),
    {
        Parser {
            file_name,
            tokens,
            pos: 0,
            errors: Vec::new(),
            current_segment: ProgramSegment::new("entry"),
            pending_imports: Vec::new(),
        }
    }

    /// One file's own pass over `tree`: every statement of this token stream
    /// lands in the tree, the final segment under construction included. A
    /// root pass (`is_child` false) appends a closing halt so execution
    /// cannot fall off the end; a child pass first records this file as
    /// merged and names its entry segment after the file. Import directives
    /// are collected, not processed.
    pub fn parse_file(self, tree: &mut ProgramTree, is_child: bool) -> (r: FileParse)
        requires
            self.wf(),
            old(tree).wf(),
        ensures
            final(tree).wf(),
            preserves_resolved(old(tree).constants@, final(tree).constants@),
            old(tree).segments@.len() < final(tree).segments@.len(),
            forall|k: int|
                0 <= k < old(tree).segments@.len() ==> final(tree).segments@[k] == old(
                    tree,
                ).segments@[k],
            final(tree).allow_defaults ==> old(tree).allow_defaults,
            names_sorted(r.imports@),
            is_child ==> spec_name_mem(final(tree).imports@, self.spec_file_name()),
            !is_child ==> final(tree).imports@ == old(tree).imports@,
            forall|n: Seq<char>|
                spec_name_mem(old(tree).imports@, n) ==> #[trigger] spec_name_mem(
                    final(tree).imports@,
                    n,
                ),
            !is_child ==> final(tree).segments@.last().elements@.len() >= 1,
            !is_child ==> (final(tree).segments@.last().elements@.last()
                matches ProgramElement::Instruction(i) && i.kind == AsmInstruction::Halt
                && i.args@.len() == 0),
            ({
                // The whole pass, statement by statement: the fold of the
                // statement machine over this token stream determines the new
                // bindings, the appended segments, the errors and the pending
                // imports exactly.
                let st0 = PStep {
                    consts: consts_model(old(tree).constants@),
                    closed: Seq::empty(),
                    cur: if is_child {
                        SegM {
                            name: "__import_entry_"@ + self.spec_file_name() + "__"@,
                            ..seg_m(self.spec_segment())
                        }
                    } else {
                        seg_m(self.spec_segment())
                    },
                    errs: Seq::empty(),
                    pending: pending_model(self.spec_pending()),
                    allow: old(tree).allow_defaults,
                    auto: old(tree).auto_label_id,
                    pos: self.spec_pos(),
                };
                let stn = spec_file_fold(
                    self.spec_tokens(),
                    self.spec_file_name(),
                    final(tree).imports@,
                    st0,
                );
                let last = if is_child {
                    stn.cur
                } else {
                    SegM {
                        elements: stn.cur.elements.push(
                            ElemM::Ins { op: AsmInstruction::Halt, args: Seq::empty() },
                        ),
                        ..stn.cur
                    }
                };
                &&& consts_model(final(tree).constants@) =~= stn.consts
                &&& final(tree).segments@.map_values(|x: ProgramSegment| seg_m(x)) =~~= old(
                    tree,
                ).segments@.map_values(|x: ProgramSegment| seg_m(x)) + stn.closed.push(last)
                &&& r.errors@.map_values(|e: ParserError| perr_m(e)) =~~= self.spec_errors().map_values(
                    |e: ParserError| perr_m(e),
                ) + stn.errs
                &&& pending_model(r.imports@) =~= stn.pending
                &&& final(tree).allow_defaults == stn.allow
                &&& final(tree).auto_label_id == stn.auto
            }),
    {
        let ghost base_errs = self.errors@;
        let ghost st_init = PStep {
            consts: consts_model(old(tree).constants@),
            closed: Seq::empty(),
            cur: if is_child {
                SegM {
                    name: "__import_entry_"@ + self.file_name@ + "__"@,
                    ..seg_m(self.current_segment)
                }
            } else {
                seg_m(self.current_segment)
            },
            errs: Seq::empty(),
            pending: pending_model(self.pending_imports@),
            allow: old(tree).allow_defaults,
            auto: old(tree).auto_label_id,
            pos: self.pos as int,
        };
        let mut p = self;
        if is_child {
            p.current_segment.name = import_entry_name(&p.file_name);
            tree.add_import(p.file_name.clone());
        }
        let ghost c0 = tree.constants@;
        let ghost imp0 = tree.imports@;
        let ghost segs0 = tree.segments@;
        let ghost fname = p.file_name@;
        let ghost toksg = p.tokens@;
        let ghost stn = spec_file_fold(toksg, fname, imp0, st_init);
        proof {
            lemma_preserves_refl(c0);
            assert(st_init =~~= pre_step(*tree, p));
            assert(tree.segments@.map_values(|x: ProgramSegment| seg_m(x)).skip(
                segs0.len() as int,
            ) =~~= Seq::<SegM>::empty());
            assert(p.errors@.map_values(|e: ParserError| perr_m(e)).skip(base_errs.len() as int)
                =~~= Seq::<PErrM>::empty());
        }
        // No separate whitespace pass: the statement loop consumes separators
        // itself, one per step.
        loop
            invariant
                p.wf(),
                tree.wf(),
                p.file_name@ == fname,
                p.tokens@ == toksg,
                preserves_resolved(c0, tree.constants@),
                segs0 == old(tree).segments@,
                segs0.len() <= tree.segments@.len(),
                forall|k: int| 0 <= k < segs0.len() ==> tree.segments@[k] == segs0[k],
                tree.allow_defaults ==> old(tree).allow_defaults,
                tree.imports@ == imp0,
                is_child ==> spec_name_mem(imp0, fname),
                base_errs.len() <= p.errors@.len(),
                p.errors@.map_values(|e: ParserError| perr_m(e)).take(base_errs.len() as int)
                    =~~= base_errs.map_values(|e: ParserError| perr_m(e)),
                stn == spec_file_fold(toksg, fname, imp0, st_init),
                spec_file_fold(
                    toksg,
                    fname,
                    imp0,
                    PStep {
                        consts: consts_model(tree.constants@),
                        closed: tree.segments@.map_values(|x: ProgramSegment| seg_m(x)).skip(
                            segs0.len() as int,
                        ),
                        cur: seg_m(p.current_segment),
                        errs: p.errors@.map_values(|e: ParserError| perr_m(e)).skip(
                            base_errs.len() as int,
                        ),
                        pending: pending_model(p.pending_imports@),
                        allow: tree.allow_defaults,
                        auto: tree.auto_label_id,
                        pos: p.pos as int,
                    },
                ) =~~= stn,
            ensures
                p.wf(),
                tree.wf(),
                p.file_name@ == fname,
                p.tokens@ == toksg,
                preserves_resolved(c0, tree.constants@),
                segs0.len() <= tree.segments@.len(),
                forall|k: int| 0 <= k < segs0.len() ==> tree.segments@[k] == segs0[k],
                tree.allow_defaults ==> old(tree).allow_defaults,
                tree.imports@ == imp0,
                base_errs.len() <= p.errors@.len(),
                consts_model(tree.constants@) =~= stn.consts,
                tree.segments@.map_values(|x: ProgramSegment| seg_m(x)) =~~= segs0.map_values(
                    |x: ProgramSegment| seg_m(x),
                ) + stn.closed,
                seg_m(p.current_segment) =~~= stn.cur,
                p.errors@.map_values(|e: ParserError| perr_m(e)) =~~= base_errs.map_values(
                    |e: ParserError| perr_m(e),
                ) + stn.errs,
                pending_model(p.pending_imports@) =~= stn.pending,
                tree.allow_defaults == stn.allow,
                tree.auto_label_id == stn.auto,
            decreases p.tokens@.len() - p.pos,
        {
            if p.pos >= p.tokens.len() {
                proof {
                    let acc = PStep {
                        consts: consts_model(tree.constants@),
                        closed: tree.segments@.map_values(|x: ProgramSegment| seg_m(x)).skip(
                            segs0.len() as int,
                        ),
                        cur: seg_m(p.current_segment),
                        errs: p.errors@.map_values(|e: ParserError| perr_m(e)).skip(
                            base_errs.len() as int,
                        ),
                        pending: pending_model(p.pending_imports@),
                        allow: tree.allow_defaults,
                        auto: tree.auto_label_id,
                        pos: p.pos as int,
                    };
                    assert(spec_file_fold(toksg, fname, imp0, acc) == acc);
                    assert(segs0.map_values(|x: ProgramSegment| seg_m(x)) + acc.closed
                        =~~= tree.segments@.map_values(|x: ProgramSegment| seg_m(x)));
                    assert(base_errs.map_values(|e: ParserError| perr_m(e)) + acc.errs
                        =~~= p.errors@.map_values(|e: ParserError| perr_m(e)));
                }
                break;
            }
            let ghost cbefore = tree.constants@;
            let ghost accpre = PStep {
                consts: consts_model(tree.constants@),
                closed: tree.segments@.map_values(|x: ProgramSegment| seg_m(x)).skip(
                    segs0.len() as int,
                ),
                cur: seg_m(p.current_segment),
                errs: p.errors@.map_values(|e: ParserError| perr_m(e)).skip(
                    base_errs.len() as int,
                ),
                pending: pending_model(p.pending_imports@),
                allow: tree.allow_defaults,
                auto: tree.auto_label_id,
                pos: p.pos as int,
            };
            let ghost segs_pre = tree.segments@;
            let ghost errs_pre = p.errors@;
            p.parse_next(tree);
            proof {
                lemma_preserves_trans(c0, cbefore, tree.constants@);
                let d = spec_stmt_step(
                    toksg,
                    fname,
                    imp0,
                    PStep { closed: Seq::empty(), errs: Seq::empty(), ..accpre },
                );
                // The statement's own contribution, as parse_next states it.
                assert(consts_model(tree.constants@) =~= d.consts);
                assert(tree.segments@.map_values(|x: ProgramSegment| seg_m(x))
                    =~~= segs_pre.map_values(|x: ProgramSegment| seg_m(x)) + d.closed);
                assert(seg_m(p.current_segment) =~~= d.cur);
                assert(p.errors@.map_values(|e: ParserError| perr_m(e)) =~~= errs_pre.map_values(
                    |e: ParserError| perr_m(e),
                ) + d.errs);
                assert(pending_model(p.pending_imports@) =~= d.pending);
                // The accumulated deltas grow by exactly that contribution.
                assert(tree.segments@.map_values(|x: ProgramSegment| seg_m(x)).skip(
                    segs0.len() as int,
                ) =~~= accpre.closed + d.closed);
                assert(p.errors@.map_values(|e: ParserError| perr_m(e)).skip(
                    base_errs.len() as int,
                ) =~~= accpre.errs + d.errs);
                assert(p.errors@.map_values(|e: ParserError| perr_m(e)).take(base_errs.len() as int)
                    =~~= base_errs.map_values(|e: ParserError| perr_m(e)));
                // One unfolding of the fold keeps the invariant.
                let accpost = PStep {
                    consts: consts_model(tree.constants@),
                    closed: tree.segments@.map_values(|x: ProgramSegment| seg_m(x)).skip(
                        segs0.len() as int,
                    ),
                    cur: seg_m(p.current_segment),
                    errs: p.errors@.map_values(|e: ParserError| perr_m(e)).skip(
                        base_errs.len() as int,
                    ),
                    pending: pending_model(p.pending_imports@),
                    allow: tree.allow_defaults,
                    auto: tree.auto_label_id,
                    pos: p.pos as int,
                };
                assert(accpost =~~= PStep {
                    closed: accpre.closed + d.closed,
                    errs: accpre.errs + d.errs,
                    ..d
                });
                assert(spec_file_fold(toksg, fname, imp0, accpre) == spec_file_fold(
                    toksg,
                    fname,
                    imp0,
                    PStep { closed: accpre.closed + d.closed, errs: accpre.errs + d.errs, ..d },
                ));
            }
        }
        // A root program must not run off its end.
        if !is_child {
            let ghost elems0 = p.current_segment.elements@;
            p.current_segment.elements.push(
                ProgramElement::Instruction(Instruction::new(AsmInstruction::Halt)),
            );
            proof {
                lemma_elem_map_push(elems0, p.current_segment.elements@);
            }
        }
        let ghost segs_end = tree.segments@;
        tree.segments.push(p.current_segment);
        proof {
            lemma_seg_map_push(segs_end, tree.segments@);
        }
        FileParse { errors: p.errors, imports: p.pending_imports }
    }

    /// The whole pipeline for one token stream. `root` carries an ambient
    /// tree when this parse is an import of another file. Pending imports are
    /// resolved against an empty set of files here — each is reported as not
    /// found — since reading files is the driver's concern; a driver with
    /// real files runs `parse_file` around its own reading instead.
    pub fn parse(self, root: Option<ProgramTree>) -> (r: Result<ProgramTree, Vec<ParserError>>)
        requires
            self.wf(),
            root matches Some(t) ==> t.wf(),
        ensures
            r matches Ok(t) ==> t.wf() && spec_unresolved(
                t.constants@,
                root is Some && t.allow_defaults,
            ) =~~= Seq::<Seq<char>>::empty(),
            r matches Err(es) ==> es@.len() > 0,
            ({
                // The whole pipeline, statement by statement: the fold of one
                // file's pass determines the returned tree and whether the
                // parse succeeds; completion injects the defaults and the
                // scan owes an empty unresolved set.
                let is_child = root is Some;
                let st0 = PStep {
                    consts: match root {
                        Some(t0) => consts_model(t0.constants@),
                        None => Map::empty(),
                    },
                    closed: Seq::empty(),
                    cur: if is_child {
                        SegM {
                            name: "__import_entry_"@ + self.spec_file_name() + "__"@,
                            ..seg_m(self.spec_segment())
                        }
                    } else {
                        seg_m(self.spec_segment())
                    },
                    errs: Seq::empty(),
                    pending: pending_model(self.spec_pending()),
                    allow: match root {
                        Some(t0) => t0.allow_defaults,
                        None => true,
                    },
                    auto: match root {
                        Some(t0) => t0.auto_label_id,
                        None => 0u32,
                    },
                    pos: self.spec_pos(),
                };
                let base_segs = match root {
                    Some(t0) => t0.segments@.map_values(|x: ProgramSegment| seg_m(x)),
                    None => Seq::<SegM>::empty(),
                };
                &&& (r matches Ok(t) ==> {
                    let stn = spec_file_fold(
                        self.spec_tokens(),
                        self.spec_file_name(),
                        t.imports@,
                        st0,
                    );
                    let completed = if !is_child && stn.allow {
                        spec_inject_defaults(stn.consts)
                    } else {
                        stn.consts
                    };
                    let last = if is_child {
                        stn.cur
                    } else {
                        SegM {
                            elements: stn.cur.elements.push(
                                ElemM::Ins { op: AsmInstruction::Halt, args: Seq::empty() },
                            ),
                            ..stn.cur
                        }
                    };
                    // a successful parse recorded nothing anywhere
                    &&& self.spec_errors() == Seq::<ParserError>::empty()
                    &&& stn.errs =~~= Seq::<PErrM>::empty()
                    &&& stn.pending.is_empty()
                    &&& consts_model(t.constants@) =~= completed
                    &&& t.segments@.map_values(|x: ProgramSegment| seg_m(x)) =~~= base_segs
                        + stn.closed.push(last)
                    &&& t.allow_defaults == stn.allow
                    &&& t.auto_label_id == stn.auto
                    &&& model_unresolved(completed, is_child && stn.allow).is_empty()
                })
                &&& (root is None && self.spec_errors() == Seq::<ParserError>::empty() ==> {
                    let stn = spec_file_fold(
                        self.spec_tokens(),
                        self.spec_file_name(),
                        seq![self.spec_file_string()],
                        st0,
                    );
                    let completed = if stn.allow {
                        spec_inject_defaults(stn.consts)
                    } else {
                        stn.consts
                    };
                    // a clean root pass owes success ...
                    &&& ((stn.errs =~~= Seq::<PErrM>::empty()) && stn.pending.is_empty()
                        && model_unresolved(completed, false).is_empty() ==> r is Ok)
                    // ... and a failed one returns every recorded error: the
                    // pass's own, then one per missing import in ascending
                    // order, then one per unresolved name in ascending order.
                    &&& (r matches Err(es) ==> exists|fs: Seq<String>, us: Seq<String>|
                        {
                            &&& names_sorted(fs)
                            &&& pending_model(fs) =~= stn.pending
                            &&& names_sorted(us)
                            &&& (forall|n: Seq<char>|
                                #[trigger] spec_name_mem(us, n) == model_unresolved(
                                    completed,
                                    false,
                                ).contains(n))
                            &&& es@.map_values(|e: ParserError| perr_m(e)) =~~= stn.errs
                                + fs.map_values(|x: String| PErrM::MissingFile(x@))
                                + us.map_values(|x: String| PErrM::UnknownName(x@))
                        })
                })
            }),
            ({
                // A root tree ends in the closing halt; an ambient tree is
                // only grown: its bindings, its segments and its merged files
                // all survive, and this file is recorded as merged.
                r matches Ok(t) ==> {
                    &&& (root is None ==> t.segments@.len() >= 1 && t.segments@.last().elements@.len()
                        >= 1 && (t.segments@.last().elements@.last()
                        matches ProgramElement::Instruction(i) && i.kind == AsmInstruction::Halt
                        && i.args@.len() == 0))
                    &&& (root matches Some(t0) ==> {
                        &&& preserves_resolved(t0.constants@, t.constants@)
                        &&& t0.segments@.len() < t.segments@.len()
                        &&& (forall|k: int|
                            0 <= k < t0.segments@.len() ==> t.segments@[k] == t0.segments@[k])
                        &&& spec_name_mem(t.imports@, self.spec_file_name())
                        &&& (forall|n: Seq<char>|
                            spec_name_mem(t0.imports@, n) ==> #[trigger] spec_name_mem(
                                t.imports@,
                                n,
                            ))
                        &&& (t.allow_defaults ==> t0.allow_defaults)
                    })
                }
            }),
    {
        let is_child = root.is_some();
        let ghost toks0 = self.tokens@;
        let ghost fname0 = self.file_name@;
        let ghost fstr = self.file_name;
        let ghost seg0 = self.current_segment;
        let ghost pend0 = self.pending_imports@;
        let ghost errsp0 = self.errors@;
        let ghost pos0 = self.pos as int;
        let mut tree = match root {
            Some(t) => t,
            None => ProgramTree::new(self.file_name.clone()),
        };
        let ghost cpre = tree.constants@;
        let ghost segs_pre = tree.segments@;
        let ghost st0g = PStep {
            consts: consts_model(cpre),
            closed: Seq::empty(),
            cur: if is_child {
                SegM { name: "__import_entry_"@ + fname0 + "__"@, ..seg_m(seg0) }
            } else {
                seg_m(seg0)
            },
            errs: Seq::empty(),
            pending: pending_model(pend0),
            allow: tree.allow_defaults,
            auto: tree.auto_label_id,
            pos: pos0,
        };
        proof {
            if root is None {
                assert(consts_model(cpre) =~= Map::<Seq<char>, ConstantType>::empty());
                assert(tree.imports@ =~= seq![fstr]);
                assert(segs_pre.map_values(|x: ProgramSegment| seg_m(x)) =~~= Seq::<SegM>::empty());
            }
        }
        let fp = self.parse_file(&mut tree, is_child);
        let ghost stn = spec_file_fold(toks0, fname0, tree.imports@, st0g);
        let mut errors = fp.errors;
        let ghost fperrs = errors@;
        let ghost e0 = errors@.len();
        let mut k: usize = 0;
        let imports = fp.imports;
        proof {
            assert(imports@.take(0).map_values(|x: String| PErrM::MissingFile(x@))
                =~~= Seq::<PErrM>::empty());
            assert(fperrs.map_values(|e: ParserError| perr_m(e)) + Seq::<PErrM>::empty()
                =~~= fperrs.map_values(|e: ParserError| perr_m(e)));
        }
        while k < imports.len()
            invariant
                errors@.len() == e0 + k,
                k <= imports@.len(),
                errors@.map_values(|e: ParserError| perr_m(e)) =~~= fperrs.map_values(
                    |e: ParserError| perr_m(e),
                ) + imports@.take(k as int).map_values(|x: String| PErrM::MissingFile(x@)),
            decreases imports@.len() - k,
        {
            let ghost preve = errors@;
            errors.push(ParserError::FileNotFound(imports[k].clone()));
            proof {
                lemma_perr_map_push(preve, errors@);
                assert(imports@.take(k as int + 1) =~= imports@.take(k as int).push(
                    imports@[k as int],
                ));
                assert(imports@.take(k as int + 1).map_values(
                    |x: String| PErrM::MissingFile(x@),
                ) =~~= imports@.take(k as int).map_values(|x: String| PErrM::MissingFile(x@)).push(
                    PErrM::MissingFile(imports@[k as int]@),
                ));
                assert(fperrs.map_values(|e: ParserError| perr_m(e)) + imports@.take(
                    k as int,
                ).map_values(|x: String| PErrM::MissingFile(x@)).push(
                    PErrM::MissingFile(imports@[k as int]@),
                ) =~~= (fperrs.map_values(|e: ParserError| perr_m(e)) + imports@.take(
                    k as int,
                ).map_values(|x: String| PErrM::MissingFile(x@))).push(
                    PErrM::MissingFile(imports@[k as int]@),
                ));
            }
            k += 1;
        }
        if !is_child {
            tree.complete();
        }
        let scanned = tree.check_all_resolved(is_child);
        let ghost e1 = errors@.len();
        let ghost errs_mid = errors@;
        let ghost usg: Seq<String> = if scanned is Err {
            scanned->Err_0@
        } else {
            Seq::empty()
        };
        proof {
            assert(usg.take(0).map_values(|x: String| PErrM::UnknownName(x@))
                =~~= Seq::<PErrM>::empty());
            assert(errs_mid.map_values(|e: ParserError| perr_m(e)) + Seq::<PErrM>::empty()
                =~~= errs_mid.map_values(|e: ParserError| perr_m(e)));
        }
        match scanned {
            Ok(()) => {},
            Err(names) => {
                let mut j: usize = 0;
                while j < names.len()
                    invariant
                        errors@.len() == e1 + j,
                        j <= names@.len(),
                        names@.len() > 0,
                        usg == names@,
                        errs_mid == errors@.take(e1 as int),
                        errors@.map_values(|e: ParserError| perr_m(e)) =~~= errs_mid.map_values(
                            |e: ParserError| perr_m(e),
                        ) + usg.take(j as int).map_values(|x: String| PErrM::UnknownName(x@)),
                    decreases names@.len() - j,
                {
                    let ghost preve = errors@;
                    errors.push(ParserError::UnknownIdentifier { name: names[j].clone() });
                    proof {
                        lemma_perr_map_push(preve, errors@);
                        assert(usg.take(j as int + 1) =~= usg.take(j as int).push(
                            usg[j as int],
                        ));
                        assert(usg.take(j as int + 1).map_values(
                            |x: String| PErrM::UnknownName(x@),
                        ) =~~= usg.take(j as int).map_values(|x: String| PErrM::UnknownName(x@)).push(
                            PErrM::UnknownName(usg[j as int]@),
                        ));
                        assert(errs_mid.map_values(|e: ParserError| perr_m(e)) + usg.take(
                            j as int,
                        ).map_values(|x: String| PErrM::UnknownName(x@)).push(
                            PErrM::UnknownName(usg[j as int]@),
                        ) =~~= (errs_mid.map_values(|e: ParserError| perr_m(e)) + usg.take(
                            j as int,
                        ).map_values(|x: String| PErrM::UnknownName(x@))).push(
                            PErrM::UnknownName(usg[j as int]@),
                        ));
                        assert(errors@.take(e1 as int) =~= preve.take(e1 as int));
                    }
                    j += 1;
                }
            },
        }
        proof {
            let exempt = is_child && tree.allow_defaults;
            assert forall|n: Seq<char>|
                spec_unresolved(tree.constants@, exempt).contains(n) == model_unresolved(
                    consts_model(tree.constants@),
                    exempt,
                ).contains(n) by {
                lemma_unresolved_model(tree.constants@, exempt, n);
            }
        }
        if errors.len() > 0 {
            proof {
                // on the clean-input obligation: something was recorded, so
                // the input was not clean
                if e0 == 0 && imports@.len() == 0 {
                    // the scan reported a name: the completed table holds it
                    // unresolved
                    assert(scanned is Err);
                    let names_seq = scanned->Err_0@;
                    assert(names_seq[0]@ == names_seq[0]@);
                    assert(spec_name_mem(names_seq, names_seq[0]@));
                    assert(spec_unresolved(
                        tree.constants@,
                        is_child && tree.allow_defaults,
                    ).contains(names_seq[0]@));
                }
                if imports@.len() > 0 {
                    assert(spec_name_mem(fp.imports@, fp.imports@[0]@));
                    assert(pending_model(fp.imports@).contains(fp.imports@[0]@));
                }
                if e0 > 0 {
                    assert(fp.errors@.map_values(|e: ParserError| perr_m(e)).len() > 0);
                }
                // the returned list is exactly the three blocks in order
                if root is None && errsp0 =~= Seq::<ParserError>::empty() {
                    assert(usg.take(usg.len() as int) =~= usg);
                    assert(imports@.take(imports@.len() as int) =~= imports@);
                    assert(fperrs.map_values(|e: ParserError| perr_m(e)) =~~= stn.errs);
                    assert(errors@.map_values(|e: ParserError| perr_m(e)) =~~= stn.errs
                        + imports@.map_values(|x: String| PErrM::MissingFile(x@))
                        + usg.map_values(|x: String| PErrM::UnknownName(x@)));
                    assert(consts_model(tree.constants@) =~= (if stn.allow {
                        spec_inject_defaults(stn.consts)
                    } else {
                        stn.consts
                    }));
                    assert forall|n: Seq<char>| #[trigger]
                        spec_name_mem(usg, n) == model_unresolved(
                            if stn.allow {
                                spec_inject_defaults(stn.consts)
                            } else {
                                stn.consts
                            },
                            false,
                        ).contains(n) by {
                        lemma_unresolved_model(tree.constants@, false, n);
                        if scanned is Err {
                            assert(spec_name_mem(usg, n) == spec_unresolved(
                                tree.constants@,
                                false,
                            ).contains(n));
                        } else {
                            assert(!spec_unresolved(tree.constants@, false).contains(n));
                            if spec_name_mem(usg, n) {
                                let w = choose|x: int|
                                    0 <= x < usg.len() && (#[trigger] usg[x])@ == n;
                                assert(false);
                            }
                        }
                    }
                    // the witness pair: the sorted pending imports and the
                    // sorted unresolved names
                    let stn_e = spec_file_fold(toks0, fname0, seq![fstr], st0g);
                    let completed_e = if stn_e.allow {
                        spec_inject_defaults(stn_e.consts)
                    } else {
                        stn_e.consts
                    };
                    assert(stn_e == stn);
                    assert(names_sorted(imports@));
                    assert(pending_model(imports@) =~= stn_e.pending);
                    assert(names_sorted(usg));
                    assert(forall|n: Seq<char>|
                        #[trigger] spec_name_mem(usg, n) == model_unresolved(
                            completed_e,
                            false,
                        ).contains(n));
                    assert(errors@.map_values(|e: ParserError| perr_m(e)) =~~= stn_e.errs
                        + imports@.map_values(|x: String| PErrM::MissingFile(x@))
                        + usg.map_values(|x: String| PErrM::UnknownName(x@)));
                    assert(exists|fs: Seq<String>, us: Seq<String>|
                        {
                            &&& names_sorted(fs)
                            &&& pending_model(fs) =~= stn_e.pending
                            &&& names_sorted(us)
                            &&& (forall|n: Seq<char>|
                                #[trigger] spec_name_mem(us, n) == model_unresolved(
                                    completed_e,
                                    false,
                                ).contains(n))
                            &&& errors@.map_values(|e: ParserError| perr_m(e)) =~~= stn_e.errs
                                + fs.map_values(|x: String| PErrM::MissingFile(x@))
                                + us.map_values(|x: String| PErrM::UnknownName(x@))
                        });
                }
            }
            Err(errors)
        } else {
            proof {
                assert(fp.errors@.len() == 0 && imports@.len() == 0 && scanned is Ok);
                assert(errsp0 =~= Seq::<ParserError>::empty());
                assert(stn.errs =~~= Seq::<PErrM>::empty());
                assert(stn.pending =~= Set::<Seq<char>>::empty()) by {
                    if !stn.pending.is_empty() {
                        let w = stn.pending.choose();
                        assert(pending_model(fp.imports@).contains(w));
                        assert(spec_name_mem(fp.imports@, w));
                        let j = choose|x: int|
                            0 <= x < fp.imports@.len() && (#[trigger] fp.imports@[x])@ == w;
                        assert(false);
                    }
                }
                assert(model_unresolved(
                    consts_model(tree.constants@),
                    is_child && tree.allow_defaults,
                ).is_empty()) by {
                    if !model_unresolved(
                        consts_model(tree.constants@),
                        is_child && tree.allow_defaults,
                    ).is_empty() {
                        let w = model_unresolved(
                            consts_model(tree.constants@),
                            is_child && tree.allow_defaults,
                        ).choose();
                        assert(spec_unresolved(
                            tree.constants@,
                            is_child && tree.allow_defaults,
                        ).contains(w));
                        assert(false);
                    }
                }
            }
            Ok(tree)
        }
    }

    /// Skips statement separators.
    fn consume_whitespaces(&mut self)
        requires
            old(self).wf(),
        ensures
            final(self).wf(),
            unchanged_stream(final(self), old(self)),
            unchanged_collect(final(self), old(self)),
            old(self).pos <= final(self).pos <= final(self).tokens@.len(),
            forall|k: int|
                old(self).pos <= k < final(self).pos ==> spec_sep_token(#[trigger] final(self).tokens@[k]),
            final(self).pos == final(self).tokens@.len() || !spec_sep_token(final(self).tokens@[final(self).pos as int]),
            final(self).pos == spec_sep_end(old(self).tokens@, old(self).pos as int),
    {
        loop
            invariant
                self.wf(),
                unchanged_stream(self, old(self)),
                unchanged_collect(self, old(self)),
                old(self).pos <= self.pos <= self.tokens@.len(),
                forall|k: int|
                    old(self).pos <= k < self.pos ==> spec_sep_token(#[trigger] self.tokens@[k]),
                spec_sep_end(self.tokens@, old(self).pos as int) == spec_sep_end(
                    self.tokens@,
                    self.pos as int,
                ),
            ensures
                self.wf(),
                unchanged_stream(self, old(self)),
                unchanged_collect(self, old(self)),
                old(self).pos <= self.pos <= self.tokens@.len(),
                forall|k: int|
                    old(self).pos <= k < self.pos ==> spec_sep_token(#[trigger] self.tokens@[k]),
                self.pos == self.tokens@.len() || !spec_sep_token(self.tokens@[self.pos as int]),
                self.pos == spec_sep_end(self.tokens@, old(self).pos as int),
            decreases self.tokens@.len() - self.pos,
        {
            if self.pos >= self.tokens.len() {
                break;
            }
            let k = self.tokens[self.pos].kind;
            if k == TokenKind::Newline || k == TokenKind::Comma || k == TokenKind::SemiColon {
                self.pos += 1;
            } else {
                break;
            }
        }
    }

    /// Dispatches one statement on its first token. Always consumes at least
    /// that token.
    fn parse_next(&mut self, tree: &mut ProgramTree)
        requires
            old(self).wf(),
            old(self).pos < old(self).tokens@.len(),
            old(tree).wf(),
        ensures
            final(self).wf(),
            unchanged_stream(final(self), old(self)),
            old(self).pos < final(self).pos <= final(self).tokens@.len(),
            final(tree).wf(),
            preserves_resolved(old(tree).constants@, final(tree).constants@),
            old(tree).segments@.len() <= final(tree).segments@.len(),
            forall|k: int|
                0 <= k < old(tree).segments@.len() ==> final(tree).segments@[k] == old(
                    tree,
                ).segments@[k],
            final(tree).allow_defaults ==> old(tree).allow_defaults,
            final(tree).imports@ == old(tree).imports@,
            handler_step(
                *old(tree),
                *final(tree),
                *old(self),
                *final(self),
                spec_stmt_step(
                    old(self).tokens@,
                    old(self).file_name@,
                    old(tree).imports@,
                    pre_step(*old(tree), *old(self)),
                ),
            ),
    {
        let ghost st0 = pre_step(*tree, *self);
        let ghost c0 = tree.constants@;
        let ghost segs0 = tree.segments@;
        let ghost errs0 = self.errors@;
        let n = self.tokens.len();
        let next = self.tokens[self.pos].clone();
        self.pos += 1;
        proof {
            assert(self.pos <= n);
            lemma_preserves_refl(tree.constants@);
            assert(pre_step(*tree, *self) =~= PStep { pos: st0.pos + 1, ..st0 });
        }
        match next.kind {
            TokenKind::ConstantDeclaration => self.parse_constant(tree),
            TokenKind::Label => self.parse_label(tree, &next),
            TokenKind::Identifier => self.parse_identifier(tree, &next),
            TokenKind::Integer => {
                self.parse_integer(&next);
                proof {
                    lemma_step_frames(errs0, self.errors@, segs0, tree.segments@, c0);
                }
            },
            TokenKind::Register => {
                self.parse_register(&next);
                proof {
                    lemma_step_frames(errs0, self.errors@, segs0, tree.segments@, c0);
                    lemma_push_as_delta_perr(
                        errs0.map_values(|e: ParserError| perr_m(e)),
                        PErrM::Text(spec_bare_register_msg(next)),
                    );
                }
            },
            TokenKind::Directive => self.parse_directive(tree, &next),
            TokenKind::Instruction => self.parse_instruction(tree, &next),
            _ => {
                // a separator: consumed, nothing more
                proof {
                    lemma_step_frames(errs0, self.errors@, segs0, tree.segments@, c0);
                }
            },
        }
    }

    /// Takes the next token if it has the expected kind; otherwise reports
    /// what stood there (consuming nothing), or the end of the input.
    fn parse_of_type(&mut self, expected: TokenKind) -> (r: Result<Token, ParserError>)
        requires
            old(self).wf(),
        ensures
            final(self).wf(),
            unchanged_stream(final(self), old(self)),
            unchanged_collect(final(self), old(self)),
            ({
                let toks = old(self).tokens@;
                let i = old(self).pos as int;
                if i < toks.len() && toks[i].kind == expected {
                    final(self).pos == i + 1 && (r matches Ok(t) && t == toks[i])
                } else if i < toks.len() {
                    final(self).pos == i && r == Err::<Token, ParserError>(
                        ParserError::MismatchedTypes { expected, got: toks[i].kind },
                    )
                } else {
                    final(self).pos == i && r == Err::<Token, ParserError>(ParserError::UnexpectedEOF)
                }
            }),
    {
        if self.pos < self.tokens.len() {
            let t = &self.tokens[self.pos];
            if t.kind == expected {
                let out = t.clone();
                self.pos += 1;
                Ok(out)
            } else {
                Err(ParserError::MismatchedTypes { expected, got: t.kind })
            }
        } else {
            Err(ParserError::UnexpectedEOF)
        }
    }

    /// `const <name> <integer>`: binds the name, unless it is already bound —
    /// then the first declaration wins and a collision is reported.
    fn parse_constant(&mut self, tree: &mut ProgramTree)
        requires
            old(self).wf(),
            old(tree).wf(),
        ensures
            final(self).wf(),
            unchanged_stream(final(self), old(self)),
            old(self).pos <= final(self).pos <= final(self).tokens@.len(),
            final(self).current_segment == old(self).current_segment,
            final(self).pending_imports@ == old(self).pending_imports@,
            final(tree).wf(),
            preserves_resolved(old(tree).constants@, final(tree).constants@),
            final(tree).segments == old(tree).segments,
            final(tree).imports == old(tree).imports,
            final(tree).allow_defaults == old(tree).allow_defaults,
            ({
                // The two error paths: what stands there is reported and the
                // table is untouched; a mismatched token is not consumed.
                let toks = old(self).tokens@;
                let i = old(self).pos as int;
                &&& (i >= toks.len() ==> final(self).pos == i && final(tree).constants@ == old(tree).constants@ && final(self).errors@ == old(self).errors@.push(
                    ParserError::UnexpectedEOF,
                ))
                &&& (i < toks.len() && toks[i].kind != TokenKind::Identifier ==> final(self).pos
                    == i && final(tree).constants@ == old(tree).constants@ && final(self).errors@
                    == old(self).errors@.push(
                    ParserError::MismatchedTypes {
                        expected: TokenKind::Identifier,
                        got: toks[i].kind,
                    },
                ))
                &&& (i < toks.len() && toks[i].kind == TokenKind::Identifier && i + 1
                    >= toks.len() ==> final(self).pos == i + 1 && final(tree).constants@ == old(tree).constants@ && final(self).errors@ == old(self).errors@.push(
                    ParserError::UnexpectedEOF,
                ))
                &&& (i + 1 < toks.len() && toks[i].kind == TokenKind::Identifier && toks[i
                    + 1].kind != TokenKind::Integer ==> final(self).pos == i + 1 && final(tree).constants@ == old(tree).constants@ && final(self).errors@ == old(self).errors@.push(
                    ParserError::MismatchedTypes {
                        expected: TokenKind::Integer,
                        got: toks[i + 1].kind,
                    },
                ))
                &&& (i + 1 < toks.len() && toks[i].kind == TokenKind::Identifier && toks[i
                    + 1].kind == TokenKind::Integer ==> {
                    let name = spec_word_of(toks[i]);
                    let value = spec_int_of(toks[i + 1]);
                    &&& final(self).pos == i + 2
                    &&& if spec_lookup(old(tree).constants@, name) is Some {
                        // collision: first declaration wins
                        &&& final(tree).constants@ == old(tree).constants@
                        &&& final(self).errors@.len() == old(self).errors@.len() + 1
                        &&& (final(self).errors@.last() matches ParserError::ConstantCollision {
                            file,
                            name: n,
                        } && file@ == final(self).file_name@ && n@ == name)
                    } else {
                        &&& spec_lookup(final(tree).constants@, name) == Some(
                            ConstantType::Value(value),
                        )
                        &&& final(self).errors@ == old(self).errors@
                    }
                })
            }),
            handler_step(
                *old(tree),
                *final(tree),
                *old(self),
                *final(self),
                spec_constant_stmt(
                    old(self).tokens@,
                    old(self).file_name@,
                    pre_step(*old(tree), *old(self)),
                ),
            ),
    {
        let ghost c0 = tree.constants@;
        let ghost segs0 = tree.segments@;
        let ghost errs0 = self.errors@;
        proof {
            lemma_preserves_refl(c0);
        }
        let name_tok = match self.parse_of_type(TokenKind::Identifier) {
            Ok(t) => t,
            Err(e) => {
                self.errors.push(e);
                proof {
                    lemma_step_frames(errs0, self.errors@, segs0, tree.segments@, c0);
                }
                return;
            },
        };
        let name = match name_tok.value {
            Some(ValueKind::Word(w)) => w,
            _ => {
                proof {
                    assert(false);
                }
                return;
            },
        };
        let value_tok = match self.parse_of_type(TokenKind::Integer) {
            Ok(t) => t,
            Err(e) => {
                self.errors.push(e);
                proof {
                    lemma_step_frames(errs0, self.errors@, segs0, tree.segments@, c0);
                }
                return;
            },
        };
        let value = match value_tok.value {
            Some(ValueKind::Integer(v)) => v,
            _ => {
                proof {
                    assert(false);
                }
                return;
            },
        };
        if tree.has_const(name.as_str()) {
            let ghost ebefore = self.errors@;
            self.errors.push(
                ParserError::ConstantCollision { file: self.file_name.clone(), name },
            );
            proof {
                assert(self.errors@.map_values(|e: ParserError| perr_m(e)) =~~= ebefore.map_values(
                    |e: ParserError| perr_m(e),
                ).push(perr_m(self.errors@.last())));
                lemma_step_frames(errs0, self.errors@, segs0, tree.segments@, c0);
            }
            return;
        }
        let ghost n = name@;
        tree.add_const(name, ConstantType::Value(value));
        proof {
            lemma_preserves_after_new(c0, tree.constants@, n);
            lemma_consts_model_bind(c0, tree.constants@, n, ConstantType::Value(value));
            lemma_step_frames(errs0, self.errors@, segs0, tree.segments@, c0);
        }
    }

    /// `<name>:`: declares the label and starts a new segment of that name.
    fn parse_label(&mut self, tree: &mut ProgramTree, token: &Token)
        requires
            old(self).wf(),
            old(tree).wf(),
            token.wf(),
            token.kind == TokenKind::Label,
        ensures
            final(self).wf(),
            unchanged_stream(final(self), old(self)),
            final(self).pos == old(self).pos,
            final(self).pending_imports@ == old(self).pending_imports@,
            final(tree).wf(),
            preserves_resolved(old(tree).constants@, final(tree).constants@),
            final(tree).imports == old(tree).imports,
            final(tree).allow_defaults == old(tree).allow_defaults,
            old(tree).segments@.len() <= final(tree).segments@.len(),
            forall|k: int|
                0 <= k < old(tree).segments@.len() ==> final(tree).segments@[k] == old(
                    tree,
                ).segments@[k],
            ({
                let name = spec_word_of(*token);
                if spec_lookup(old(tree).constants@, name) is Some {
                    // collision: reported, no new segment
                    &&& final(tree).constants@ == old(tree).constants@
                    &&& final(tree).segments == old(tree).segments
                    &&& final(self).current_segment == old(self).current_segment
                    &&& final(self).errors@.len() == old(self).errors@.len() + 1
                } else {
                    // the running segment is closed, a fresh one opened
                    &&& spec_lookup(final(tree).constants@, name) == Some(ConstantType::Label)
                    &&& final(tree).segments@ == old(tree).segments@.push(
                        old(self).current_segment,
                    )
                    &&& final(self).current_segment.name@ == name
                    &&& final(self).current_segment.origin is None
                    &&& final(self).current_segment.elements@ == Seq::<ProgramElement>::empty()
                    &&& final(self).errors@ == old(self).errors@
                }
            }),
            handler_step(
                *old(tree),
                *final(tree),
                *old(self),
                *final(self),
                spec_label_stmt(*token, old(self).file_name@, pre_step(*old(tree), *old(self))),
            ),
    {
        let ghost c0 = tree.constants@;
        let ghost segs0 = tree.segments@;
        let ghost errs0 = self.errors@;
        let name = match &token.value {
            Some(ValueKind::Word(w)) => w.clone(),
            _ => {
                proof {
                    assert(false);
                }
                return;
            },
        };
        if tree.has_const(name.as_str()) {
            let ghost ebefore = self.errors@;
            self.errors.push(
                ParserError::ConstantCollision { file: self.file_name.clone(), name },
            );
            proof {
                lemma_preserves_refl(c0);
                assert(self.errors@.map_values(|e: ParserError| perr_m(e)) =~~= ebefore.map_values(
                    |e: ParserError| perr_m(e),
                ).push(perr_m(self.errors@.last())));
                lemma_step_frames(errs0, self.errors@, segs0, tree.segments@, c0);
            }
            return;
        }
        let ghost n = name@;
        let mut seg = ProgramSegment::new(name.as_str());
        tree.add_const(name, ConstantType::Label);
        core::mem::swap(&mut self.current_segment, &mut seg);
        tree.segments.push(seg);
        proof {
            lemma_preserves_after_new(c0, tree.constants@, n);
            lemma_consts_model_bind(c0, tree.constants@, n, ConstantType::Label);
            lemma_step_frames(errs0, self.errors@, segs0, tree.segments@, c0);
            assert(Seq::<ProgramElement>::empty().map_values(|e: ProgramElement| elem_m(e))
                =~~= Seq::<ElemM>::empty());
        }
    }

    /// A bare identifier: recorded in the running segment; an unseen name is
    /// registered as unresolved.
    fn parse_identifier(&mut self, tree: &mut ProgramTree, token: &Token)
        requires
            old(self).wf(),
            old(tree).wf(),
            token.wf(),
            token.kind == TokenKind::Identifier,
        ensures
            final(self).wf(),
            unchanged_stream(final(self), old(self)),
            final(self).pos == old(self).pos,
            final(self).errors@ == old(self).errors@,
            final(self).pending_imports@ == old(self).pending_imports@,
            final(tree).wf(),
            preserves_resolved(old(tree).constants@, final(tree).constants@),
            final(tree).segments == old(tree).segments,
            final(tree).imports == old(tree).imports,
            final(tree).allow_defaults == old(tree).allow_defaults,
            final(tree).auto_label_id == old(tree).auto_label_id,
            spec_lookup(final(tree).constants@, spec_word_of(*token)) is Some,
            final(self).current_segment.name == old(self).current_segment.name,
            final(self).current_segment.origin == old(self).current_segment.origin,
            final(self).current_segment.elements@.len() == old(self).current_segment.elements@.len() + 1,
            final(self).current_segment.elements@ == old(self).current_segment.elements@.push(
                final(self).current_segment.elements@.last(),
            ),
            (final(self).current_segment.elements@.last() matches ProgramElement::Identifier(w) && w@
                == spec_word_of(*token)),
            handler_step(
                *old(tree),
                *final(tree),
                *old(self),
                *final(self),
                spec_identifier_stmt(*token, pre_step(*old(tree), *old(self))),
            ),
    {
        let ghost c0 = tree.constants@;
        let ghost segs0 = tree.segments@;
        let ghost errs0 = self.errors@;
        proof {
            lemma_preserves_refl(c0);
        }
        let key = match &token.value {
            Some(ValueKind::Word(w)) => w.clone(),
            _ => {
                proof {
                    assert(false);
                }
                String::new()
            },
        };
        if !tree.has_const(key.as_str()) {
            let ghost n = key@;
            tree.add_const(key.clone(), ConstantType::Unknown);
            proof {
                lemma_preserves_after_new(c0, tree.constants@, n);
                lemma_consts_model_bind(c0, tree.constants@, n, ConstantType::Unknown);
                assert(!consts_model(c0).contains_key(n));
            }
        } else {
            proof {
                assert(consts_model(c0).contains_key(key@));
            }
        }
        let ghost elems0 = self.current_segment.elements@;
        self.current_segment.elements.push(ProgramElement::Identifier(key));
        proof {
            lemma_consts_model_dom(c0);
            lemma_step_frames(errs0, self.errors@, segs0, tree.segments@, c0);
            lemma_elem_map_push(elems0, self.current_segment.elements@);
        }
    }

    /// A bare integer: recorded in the running segment.
    fn parse_integer(&mut self, token: &Token)
        requires
            old(self).wf(),
            token.wf(),
            token.kind == TokenKind::Integer,
        ensures
            final(self).wf(),
            unchanged_stream(final(self), old(self)),
            final(self).pos == old(self).pos,
            final(self).errors@ == old(self).errors@,
            final(self).pending_imports@ == old(self).pending_imports@,
            final(self).current_segment.name == old(self).current_segment.name,
            final(self).current_segment.origin == old(self).current_segment.origin,
            final(self).current_segment.elements@ == old(self).current_segment.elements@.push(
                ProgramElement::Immediate(spec_int_of(*token)),
            ),
            seg_m(final(self).current_segment) =~~= (SegM {
                elements: seg_m(old(self).current_segment).elements.push(
                    ElemM::Imm(spec_int_of(*token)),
                ),
                ..seg_m(old(self).current_segment)
            }),
    {
        let value = match &token.value {
            Some(ValueKind::Integer(v)) => *v,
            _ => {
                proof {
                    assert(false);
                }
                0u16
            },
        };
        let ghost elems0 = self.current_segment.elements@;
        self.current_segment.elements.push(ProgramElement::Immediate(value));
        proof {
            lemma_elem_map_push(elems0, self.current_segment.elements@);
        }
    }

    /// A bare register token: never legal outside an instruction.
    fn parse_register(&mut self, token: &Token)
        requires
            old(self).wf(),
            token.wf(),
            token.kind == TokenKind::Register,
        ensures
            final(self).wf(),
            unchanged_stream(final(self), old(self)),
            unchanged_collect_but_errors(final(self), old(self)),
            final(self).pos == old(self).pos,
            final(self).errors@.len() == old(self).errors@.len() + 1,
            final(self).errors@ == old(self).errors@.push(final(self).errors@.last()),
            (final(self).errors@.last() matches ParserError::Named { error } && error@
                == spec_bare_register_msg(*token)),
            final(self).errors@.map_values(|e: ParserError| perr_m(e)) =~~= old(
                self,
            ).errors@.map_values(|e: ParserError| perr_m(e)).push(
                PErrM::Text(spec_bare_register_msg(*token)),
            ),
    {
        let text = match &token.value {
            Some(ValueKind::Integer(i)) => u64_to_string(*i as u64),
            Some(ValueKind::Word(w)) => w.clone(),
            _ => {
                proof {
                    assert(false);
                }
                String::new()
            },
        };
        let msg = String::from_str("Unexpected Token: Register(").concat(text.as_str()).concat(
            ")",
        );
        let ghost ebefore = self.errors@;
        self.errors.push(ParserError::Named { error: msg });
        proof {
            lemma_perr_map_push(ebefore, self.errors@);
        }
    }

    /// An instruction statement: arguments run to the end of the line or a
    /// semicolon; commas only separate; a token of any other kind is reported
    /// and skipped without giving up on the rest.
    fn parse_instruction(&mut self, tree: &mut ProgramTree, token: &Token)
        requires
            old(self).wf(),
            old(tree).wf(),
            token.wf(),
            token.kind == TokenKind::Instruction,
        ensures
            final(self).wf(),
            unchanged_stream(final(self), old(self)),
            old(self).pos <= final(self).pos <= final(self).tokens@.len(),
            final(self).pending_imports@ == old(self).pending_imports@,
            final(tree).wf(),
            preserves_resolved(old(tree).constants@, final(tree).constants@),
            final(tree).segments == old(tree).segments,
            final(tree).imports == old(tree).imports,
            final(tree).allow_defaults == old(tree).allow_defaults,
            final(tree).auto_label_id == old(tree).auto_label_id,
            final(self).current_segment.name == old(self).current_segment.name,
            final(self).current_segment.origin == old(self).current_segment.origin,
            final(self).current_segment.elements@.len() == old(self).current_segment.elements@.len() + 1,
            final(self).current_segment.elements@ == old(self).current_segment.elements@.push(
                final(self).current_segment.elements@.last(),
            ),
            (final(self).current_segment.elements@.last() matches ProgramElement::Instruction(ins)
                && ins.kind == spec_op_of(*token) && ins.tokens_align()),
            ({
                let scan = spec_instr_scan(old(self).tokens@, old(self).pos as int);
                &&& final(self).pos == scan.2
                &&& (final(self).current_segment.elements@.last()
                    matches ProgramElement::Instruction(ins) && ins.args@.map_values(
                    |a: Argument| arg_m(a),
                ) =~~= scan.0)
                &&& final(self).errors@.map_values(|e: ParserError| perr_m(e)) =~~= old(
                    self,
                ).errors@.map_values(|e: ParserError| perr_m(e)) + scan.1.map_values(
                    |m: Seq<char>| PErrM::Text(m),
                )
                &&& consts_model(final(tree).constants@) =~= spec_register_args(
                    consts_model(old(tree).constants@),
                    scan.0,
                )
            }),
            handler_step(
                *old(tree),
                *final(tree),
                *old(self),
                *final(self),
                spec_instruction_stmt(
                    old(self).tokens@,
                    *token,
                    pre_step(*old(tree), *old(self)),
                ),
            ),
    {
        let ghost c0 = tree.constants@;
        let ghost segs0 = tree.segments@;
        let ghost toks = self.tokens@;
        let ghost p0 = self.pos as int;
        let ghost errs0 = self.errors@;
        proof {
            lemma_preserves_refl(c0);
        }
        let asm_code = match &token.value {
            Some(ValueKind::Instruction(i)) => *i,
            _ => {
                proof {
                    assert(false);
                }
                AsmInstruction::Halt
            },
        };
        let mut ins = Instruction::new(asm_code);
        ins.tokens_used.push(token.clone());

        loop
            invariant
                self.wf(),
                tree.wf(),
                unchanged_stream(self, old(self)),
                old(self).pos <= self.pos <= self.tokens@.len(),
                self.pending_imports@ == old(self).pending_imports@,
                self.current_segment == old(self).current_segment,
                preserves_resolved(c0, tree.constants@),
                tree.segments == old(tree).segments,
                tree.imports == old(tree).imports,
                tree.allow_defaults == old(tree).allow_defaults,
                tree.auto_label_id == old(tree).auto_label_id,
                ins.kind == asm_code,
                ins.tokens_used@.len() == ins.args@.len() + 1,
                forall|k: int|
                    0 <= k < ins.tokens_used@.len() ==> (
                    #[trigger] ins.tokens_used@[k]).position is Some,
                token.wf(),
                token.position is Some,
                toks == self.tokens@,
                errs0 == old(self).errors@,
                p0 == old(self).pos,
                p0 <= self.pos,
                ins.args@.map_values(|a: Argument| arg_m(a)) + spec_instr_scan(
                    toks,
                    self.pos as int,
                ).0 =~~= spec_instr_scan(toks, p0).0,
                self.errors@.map_values(|e: ParserError| perr_m(e)) + spec_instr_scan(
                    toks,
                    self.pos as int,
                ).1.map_values(|m: Seq<char>| PErrM::Text(m)) =~~= errs0.map_values(
                    |e: ParserError| perr_m(e),
                ) + spec_instr_scan(toks, p0).1.map_values(|m: Seq<char>| PErrM::Text(m)),
                spec_instr_scan(toks, self.pos as int).2 == spec_instr_scan(toks, p0).2,
                spec_register_args(
                    consts_model(tree.constants@),
                    spec_instr_scan(toks, self.pos as int).0,
                ) =~= spec_register_args(consts_model(c0), spec_instr_scan(toks, p0).0),
            ensures
                self.wf(),
                tree.wf(),
                unchanged_stream(self, old(self)),
                old(self).pos <= self.pos <= self.tokens@.len(),
                self.pending_imports@ == old(self).pending_imports@,
                self.current_segment == old(self).current_segment,
                preserves_resolved(c0, tree.constants@),
                tree.segments == old(tree).segments,
                tree.imports == old(tree).imports,
                tree.allow_defaults == old(tree).allow_defaults,
                tree.auto_label_id == old(tree).auto_label_id,
                ins.kind == asm_code,
                ins.tokens_used@.len() == ins.args@.len() + 1,
                forall|k: int|
                    0 <= k < ins.tokens_used@.len() ==> (
                    #[trigger] ins.tokens_used@[k]).position is Some,
                ins.args@.map_values(|a: Argument| arg_m(a)) =~~= spec_instr_scan(toks, p0).0,
                self.errors@.map_values(|e: ParserError| perr_m(e)) =~~= errs0.map_values(
                    |e: ParserError| perr_m(e),
                ) + spec_instr_scan(toks, p0).1.map_values(|m: Seq<char>| PErrM::Text(m)),
                self.pos == spec_instr_scan(toks, p0).2,
                consts_model(tree.constants@) =~= spec_register_args(
                    consts_model(c0),
                    spec_instr_scan(toks, p0).0,
                ),
            decreases self.tokens@.len() - self.pos,
        {
            if self.pos >= self.tokens.len() {
                proof {
                    lemma_concat_empty_args(ins.args@.map_values(|a: Argument| arg_m(a)));
                    lemma_concat_empty_msgs(
                        self.errors@.map_values(|e: ParserError| perr_m(e)),
                    );
                }
                break;
            }
            let kind = self.tokens[self.pos].kind;
            if kind == TokenKind::Newline || kind == TokenKind::SemiColon {
                proof {
                    lemma_concat_empty_args(ins.args@.map_values(|a: Argument| arg_m(a)));
                    lemma_concat_empty_msgs(
                        self.errors@.map_values(|e: ParserError| perr_m(e)),
                    );
                }
                break;
            }
            let ghost p = self.pos as int;
            let tok = self.tokens[self.pos].clone();
            self.pos += 1;

            if tok.kind == TokenKind::Comma {
                proof {
                    assert(spec_instr_scan(toks, p) == spec_instr_scan(toks, p + 1));
                }
                continue;
            }
            if tok.kind != TokenKind::Identifier && tok.kind != TokenKind::Integer && tok.kind
                != TokenKind::Register {
                let msg = String::from_str(
                    "Mismatched Types. expected: Identifier, Register Or Integer; found: ",
                ).concat(tok.kind.name());
                let ghost ebefore = self.errors@;
                self.errors.push(ParserError::Named { error: msg });
                proof {
                    let f = |e: ParserError| perr_m(e);
                    let g = |m: Seq<char>| PErrM::Text(m);
                    assert(spec_instr_scan(toks, p).1 =~~= seq![spec_stmt_mismatch_msg(tok.kind)]
                        + spec_instr_scan(toks, p + 1).1);
                    assert(spec_instr_scan(toks, p).0 =~~= spec_instr_scan(toks, p + 1).0);
                    assert(spec_instr_scan(toks, p).1.map_values(g) =~~= seq![
                        PErrM::Text(spec_stmt_mismatch_msg(tok.kind)),
                    ] + spec_instr_scan(toks, p + 1).1.map_values(g));
                    assert(self.errors@.map_values(f) =~~= ebefore.map_values(f).push(
                        PErrM::Text(spec_stmt_mismatch_msg(tok.kind)),
                    ));
                    assert(ebefore.map_values(f).push(PErrM::Text(spec_stmt_mismatch_msg(tok.kind)))
                        + spec_instr_scan(toks, p + 1).1.map_values(g) =~~= ebefore.map_values(f)
                        + (seq![PErrM::Text(spec_stmt_mismatch_msg(tok.kind))] + spec_instr_scan(
                        toks,
                        p + 1,
                    ).1.map_values(g)));
                }
                continue;
            }
            let ghost args_before = ins.args@;
            proof {
                assert(spec_instr_scan(toks, p).0 =~~= seq![spec_arg_of(toks[p])]
                    + spec_instr_scan(toks, p + 1).0);
                assert((seq![spec_arg_of(toks[p])] + spec_instr_scan(toks, p + 1).0)[0]
                    == spec_arg_of(toks[p]));
                assert((seq![spec_arg_of(toks[p])] + spec_instr_scan(toks, p + 1).0).drop_first()
                    =~~= spec_instr_scan(toks, p + 1).0);
            }
            ins.tokens_used.push(tok.clone());
            if tok.kind == TokenKind::Integer {
                let val = match tok.value {
                    Some(ValueKind::Integer(v)) => v,
                    _ => {
                        proof {
                            assert(false);
                        }
                        0u16
                    },
                };
                ins.args.push(Argument::Immediate(val));
                proof {
                    lemma_args_push_glue(
                        args_before,
                        ins.args@,
                        spec_arg_of(toks[p]),
                        spec_instr_scan(toks, p + 1).0,
                    );
                }
            } else if tok.kind == TokenKind::Identifier {
                let ident = match tok.value {
                    Some(ValueKind::Word(w)) => w,
                    _ => {
                        proof {
                            assert(false);
                        }
                        String::new()
                    },
                };
                let ghost cb = tree.constants@;
                if !tree.has_const(ident.as_str()) {
                    let ghost n = ident@;
                    tree.add_const(ident.clone(), ConstantType::Unknown);
                    proof {
                        lemma_preserves_after_new(cb, tree.constants@, n);
                        lemma_preserves_trans(c0, cb, tree.constants@);
                        lemma_consts_model_bind(cb, tree.constants@, n, ConstantType::Unknown);
                        assert(!consts_model(cb).contains_key(n));
                    }
                } else {
                    proof {
                        assert(consts_model(cb).contains_key(ident@));
                    }
                }
                ins.args.push(Argument::ImmediateIdentifier(ident));
                proof {
                    lemma_args_push_glue(
                        args_before,
                        ins.args@,
                        spec_arg_of(toks[p]),
                        spec_instr_scan(toks, p + 1).0,
                    );
                }
            } else {
                // A register: a number names it directly, a word is resolved
                // later.
                match tok.value {
                    Some(ValueKind::Integer(i)) => {
                        ins.args.push(Argument::Register(i));
                        proof {
                            lemma_args_push_glue(
                                args_before,
                                ins.args@,
                                spec_arg_of(toks[p]),
                                spec_instr_scan(toks, p + 1).0,
                            );
                        }
                    },
                    Some(ValueKind::Word(w)) => {
                        let ghost cb = tree.constants@;
                        if !tree.has_const(w.as_str()) {
                            let ghost n = w@;
                            tree.add_const(w.clone(), ConstantType::Unknown);
                            proof {
                                lemma_preserves_after_new(cb, tree.constants@, n);
                                lemma_preserves_trans(c0, cb, tree.constants@);
                                lemma_consts_model_bind(
                                    cb,
                                    tree.constants@,
                                    n,
                                    ConstantType::Unknown,
                                );
                                assert(!consts_model(cb).contains_key(n));
                            }
                        } else {
                            proof {
                                assert(consts_model(cb).contains_key(w@));
                            }
                        }
                        ins.args.push(Argument::RegisterIdentifier(w));
                        proof {
                            lemma_args_push_glue(
                                args_before,
                                ins.args@,
                                spec_arg_of(toks[p]),
                                spec_instr_scan(toks, p + 1).0,
                            );
                        }
                    },
                    _ => {
                        proof {
                            assert(false);
                        }
                    },
                }
            }
        }
        let ghost elems0 = self.current_segment.elements@;
        self.current_segment.elements.push(ProgramElement::Instruction(ins));
        proof {
            lemma_elem_map_push(elems0, self.current_segment.elements@);
            lemma_step_frames(errs0, self.errors@, segs0, tree.segments@, c0);
        }
    }

    /// A `#` directive: flag, segment skip, import, or an unknown name whose
    /// arguments are consumed so parsing can resynchronize.
    fn parse_directive(&mut self, tree: &mut ProgramTree, token: &Token)
        requires
            old(self).wf(),
            old(tree).wf(),
            token.wf(),
            token.kind == TokenKind::Directive,
        ensures
            final(self).wf(),
            unchanged_stream(final(self), old(self)),
            old(self).pos <= final(self).pos <= final(self).tokens@.len(),
            final(tree).wf(),
            preserves_resolved(old(tree).constants@, final(tree).constants@),
            old(tree).segments@.len() <= final(tree).segments@.len(),
            forall|k: int|
                0 <= k < old(tree).segments@.len() ==> final(tree).segments@[k] == old(
                    tree,
                ).segments@[k],
            final(tree).allow_defaults ==> old(tree).allow_defaults,
            final(tree).imports == old(tree).imports,
            ({
                let name = spec_word_of(*token);
                &&& (name == "no_predec"@ ==> {
                    &&& final(tree).allow_defaults == false
                    &&& final(tree).constants@ == old(tree).constants@
                    &&& final(tree).segments == old(tree).segments
                    &&& final(self).pos == old(self).pos
                    &&& final(self).errors@ == old(self).errors@
                })
                &&& (name != "no_predec"@ && name != "skipto"@ && name
                    != import_directive_name() ==> {
                    &&& *final(tree) == *old(tree)
                    &&& final(self).errors@.len() == old(self).errors@.len() + 1
                    &&& (final(self).errors@.last() matches ParserError::UnknownDirective {
                        name: n,
                    } && n@ == name)
                    // the arguments are consumed so parsing resynchronizes
                    &&& final(self).pos == spec_expr_end(old(self).tokens@, old(self).pos as int)
                })
            }),
            handler_step(
                *old(tree),
                *final(tree),
                *old(self),
                *final(self),
                spec_directive_stmt(
                    old(self).tokens@,
                    old(self).file_name@,
                    old(tree).imports@,
                    spec_word_of(*token),
                    pre_step(*old(tree), *old(self)),
                ),
            ),
    {
        let ghost c0 = tree.constants@;
        let ghost segs0 = tree.segments@;
        let ghost errs0 = self.errors@;
        proof {
            lemma_preserves_refl(tree.constants@);
        }
        let name = match &token.value {
            Some(ValueKind::Word(w)) => w.clone(),
            _ => {
                proof {
                    assert(false);
                }
                String::new()
            },
        };
        if str_eq(name.as_str(), "no_predec") {
            tree.allow_defaults = false;
            proof {
                lemma_step_frames(errs0, self.errors@, segs0, tree.segments@, c0);
            }
        } else if str_eq(name.as_str(), "skipto") {
            self.parse_skipto_directive(tree);
        } else if is_import_directive(name.as_str()) {
            self.parse_import_directive(tree);
        } else {
            let ghost ebefore = self.errors@;
            self.errors.push(ParserError::UnknownDirective { name });
            self.consume_expression();
            proof {
                lemma_perr_map_push(ebefore, self.errors@);
                lemma_step_frames(errs0, self.errors@, segs0, tree.segments@, c0);
            }
        }
    }

    /// Consumes every token through the next statement separator (newline or
    /// semicolon) or the end of the input.
    fn consume_expression(&mut self)
        requires
            old(self).wf(),
        ensures
            final(self).wf(),
            unchanged_stream(final(self), old(self)),
            unchanged_collect(final(self), old(self)),
            old(self).pos <= final(self).pos <= final(self).tokens@.len(),
            final(self).pos == spec_expr_end(old(self).tokens@, old(self).pos as int),
    {
        let ghost toks = self.tokens@;
        let ghost p0 = self.pos as int;
        loop
            invariant_except_break
                spec_expr_end(toks, p0) == spec_expr_end(toks, self.pos as int),
            invariant
                self.wf(),
                unchanged_stream(self, old(self)),
                unchanged_collect(self, old(self)),
                toks == self.tokens@,
                p0 == old(self).pos,
                old(self).pos <= self.pos <= self.tokens@.len(),
            ensures
                self.wf(),
                unchanged_stream(self, old(self)),
                unchanged_collect(self, old(self)),
                toks == self.tokens@,
                old(self).pos <= self.pos <= self.tokens@.len(),
                self.pos == spec_expr_end(toks, p0),
            decreases self.tokens@.len() - self.pos,
        {
            if self.pos >= self.tokens.len() {
                break;
            }
            let ghost p = self.pos as int;
            let kind = self.tokens[self.pos].kind;
            self.pos += 1;
            if kind == TokenKind::SemiColon || kind == TokenKind::Newline {
                proof {
                    assert(spec_expr_end(toks, p) == p + 1);
                }
                break;
            }
        }
    }

    /// `#skipto <address> [label:]`: closes the running segment and opens one
    /// at the given origin, named by the label if one follows, otherwise by a
    /// fresh synthetic name.
    fn parse_skipto_directive(&mut self, tree: &mut ProgramTree)
        requires
            old(self).wf(),
            old(tree).wf(),
        ensures
            final(self).wf(),
            unchanged_stream(final(self), old(self)),
            old(self).pos <= final(self).pos <= final(self).tokens@.len(),
            final(self).pending_imports@ == old(self).pending_imports@,
            final(self).errors@.len() >= old(self).errors@.len(),
            final(tree).wf(),
            preserves_resolved(old(tree).constants@, final(tree).constants@),
            old(tree).segments@.len() <= final(tree).segments@.len(),
            forall|k: int|
                0 <= k < old(tree).segments@.len() ==> final(tree).segments@[k] == old(
                    tree,
                ).segments@[k],
            final(tree).allow_defaults == old(tree).allow_defaults,
            final(tree).imports == old(tree).imports,
            ({
                let toks = old(self).tokens@;
                let i = old(self).pos as int;
                &&& (i >= toks.len() ==> final(self).pos == i && *final(tree) == *old(tree)
                    && final(self).current_segment == old(self).current_segment && final(self).errors@ == old(self).errors@.push(ParserError::UnexpectedEOF))
                &&& (i < toks.len() && toks[i].kind != TokenKind::Integer ==> final(self).pos == i
                    && *final(tree) == *old(tree) && final(self).current_segment == old(self).current_segment
                    && final(self).errors@ == old(self).errors@.push(
                    ParserError::MismatchedTypes { expected: TokenKind::Integer, got: toks[i].kind },
                ))
                &&& (i < toks.len() && toks[i].kind == TokenKind::Integer ==> {
                    let addr = spec_int_of(toks[i]);
                    let i2 = spec_sep_end(toks, i + 1);
                    &&& (i2 < toks.len() && toks[i2].kind != TokenKind::Label ==> {
                        // a fresh synthetic segment at the given origin
                        &&& final(self).pos == i2
                        &&& final(tree).segments@ == old(tree).segments@.push(
                            old(self).current_segment,
                        )
                        &&& final(self).current_segment.origin == Some(addr)
                        &&& final(self).current_segment.elements@ == Seq::<ProgramElement>::empty()
                        &&& final(self).current_segment.name@ == "__auto_label_"@ + old(
                            self,
                        ).file_name@ + "_segment_"@ + spec_decimal(
                            old(tree).auto_label_id as int,
                        ) + "__"@
                        &&& final(tree).auto_label_id == (if old(tree).auto_label_id == u32::MAX {
                            0u32
                        } else {
                            (old(tree).auto_label_id + 1) as u32
                        })
                        &&& final(tree).constants@ == old(tree).constants@
                        &&& final(self).errors@ == old(self).errors@
                    })
                    &&& (i2 < toks.len() && toks[i2].kind == TokenKind::Label ==> {
                        let name = spec_word_of(toks[i2]);
                        &&& final(self).pos == i2 + 1
                        &&& if spec_lookup(old(tree).constants@, name) is Some {
                            // collision: reported, segments untouched
                            &&& final(tree).segments == old(tree).segments
                            &&& final(tree).constants@ == old(tree).constants@
                            &&& final(self).current_segment == old(self).current_segment
                            &&& final(self).errors@.len() == old(self).errors@.len() + 1
                            &&& final(self).errors@.map_values(|e: ParserError| perr_m(e)) =~~= old(
                                self,
                            ).errors@.map_values(|e: ParserError| perr_m(e)).push(
                                PErrM::Collision { file: old(self).file_name@, name },
                            )
                        } else {
                            &&& spec_lookup(final(tree).constants@, name) == Some(
                                ConstantType::Label,
                            )
                            &&& consts_model(final(tree).constants@) =~= consts_model(
                                old(tree).constants@,
                            ).insert(name, ConstantType::Label)
                            &&& final(tree).segments@ == old(tree).segments@.push(
                                old(self).current_segment,
                            )
                            &&& final(self).current_segment.origin == Some(addr)
                            &&& final(self).current_segment.name@ == name
                            &&& final(self).errors@ == old(self).errors@
                        }
                    })
                    &&& (i2 == toks.len() ==> final(self).pos == i2 && *final(tree) == *old(tree)
                        && final(self).current_segment == old(self).current_segment
                        && final(self).errors@ == old(self).errors@.push(
                        ParserError::UnexpectedEOF,
                    ))
                })
            }),
            handler_step(
                *old(tree),
                *final(tree),
                *old(self),
                *final(self),
                spec_skipto_stmt(
                    old(self).tokens@,
                    old(self).file_name@,
                    pre_step(*old(tree), *old(self)),
                ),
            ),
    {
        let ghost c0 = tree.constants@;
        let ghost segs0 = tree.segments@;
        let ghost errs0 = self.errors@;
        proof {
            lemma_preserves_refl(c0);
            lemma_consts_model_dom(c0);
        }
        let addr_tok = match self.parse_of_type(TokenKind::Integer) {
            Ok(t) => t,
            Err(e) => {
                self.errors.push(e);
                proof {
                    lemma_step_frames(errs0, self.errors@, segs0, tree.segments@, c0);
                }
                return;
            },
        };
        let addr = match addr_tok.value {
            Some(ValueKind::Integer(v)) => v,
            _ => {
                proof {
                    assert(false);
                }
                0u16
            },
        };
        self.consume_whitespaces();

        if self.pos >= self.tokens.len() {
            self.errors.push(ParserError::UnexpectedEOF);
            proof {
                lemma_step_frames(errs0, self.errors@, segs0, tree.segments@, c0);
            }
            return;
        }
        if self.tokens[self.pos].kind != TokenKind::Label {
            // No label: a synthetic, unique segment name.
            let name = auto_label_name(&self.file_name, tree.auto_label_id);
            tree.auto_label_id = tree.auto_label_id.wrapping_add(1);
            let mut seg = ProgramSegment::with_origin(name.as_str(), addr);
            core::mem::swap(&mut self.current_segment, &mut seg);
            tree.segments.push(seg);
            proof {
                lemma_step_frames(errs0, self.errors@, segs0, tree.segments@, c0);
                assert(Seq::<ProgramElement>::empty().map_values(|e: ProgramElement| elem_m(e))
                    =~~= Seq::<ElemM>::empty());
            }
            return;
        }
        let name_tok = match self.parse_of_type(TokenKind::Label) {
            Ok(t) => t,
            Err(e) => {
                proof {
                    assert(false);
                }
                self.errors.push(e);
                return;
            },
        };
        let name = match name_tok.value {
            Some(ValueKind::Word(w)) => w,
            _ => {
                proof {
                    assert(false);
                }
                String::new()
            },
        };
        if tree.has_const(name.as_str()) {
            let ghost ebefore = self.errors@;
            self.errors.push(
                ParserError::ConstantCollision { file: self.file_name.clone(), name },
            );
            proof {
                assert(self.errors@.map_values(|e: ParserError| perr_m(e)) =~~= ebefore.map_values(
                    |e: ParserError| perr_m(e),
                ).push(perr_m(self.errors@.last())));
                lemma_step_frames(errs0, self.errors@, segs0, tree.segments@, c0);
            }
            return;
        }
        let ghost n = name@;
        let mut seg = ProgramSegment::with_origin(name.as_str(), addr);
        tree.add_const(name, ConstantType::Label);
        core::mem::swap(&mut self.current_segment, &mut seg);
        tree.segments.push(seg);
        proof {
            lemma_preserves_after_new(c0, tree.constants@, n);
            lemma_consts_model_bind(c0, tree.constants@, n, ConstantType::Label);
            lemma_step_frames(errs0, self.errors@, segs0, tree.segments@, c0);
            assert(Seq::<ProgramElement>::empty().map_values(|e: ProgramElement| elem_m(e))
                =~~= Seq::<ElemM>::empty());
        }
    }

    /// `#<import> <name>`: a file already merged is ignored; otherwise the
    /// name joins this file's pending imports, which the driver processes
    /// after this file's own tokens are exhausted.
    fn parse_import_directive(&mut self, tree: &mut ProgramTree)
        requires
            old(self).wf(),
            old(tree).wf(),
        ensures
            final(self).wf(),
            unchanged_stream(final(self), old(self)),
            old(self).pos <= final(self).pos <= final(self).tokens@.len(),
            final(self).current_segment == old(self).current_segment,
            *final(tree) == *old(tree),
            ({
                let toks = old(self).tokens@;
                let i = old(self).pos as int;
                &&& (i >= toks.len() ==> final(self).pos == i && final(self).pending_imports@
                    == old(self).pending_imports@ && final(self).errors@
                    == old(self).errors@.push(ParserError::UnexpectedEOF))
                &&& (i < toks.len() && toks[i].kind != TokenKind::Identifier ==> final(self).pos
                    == i && final(self).pending_imports@ == old(self).pending_imports@
                    && final(self).errors@ == old(self).errors@.push(
                    ParserError::MismatchedTypes {
                        expected: TokenKind::Identifier,
                        got: toks[i].kind,
                    },
                ))
                &&& (i < toks.len() && toks[i].kind == TokenKind::Identifier ==> {
                    let name = spec_word_of(toks[i]);
                    let merged = spec_name_mem(old(tree).imports@, name) || (old(
                        tree,
                    ).allow_defaults && is_default_name(name));
                    &&& final(self).errors@ == old(self).errors@
                    &&& final(self).pos == i + 1
                    &&& (merged ==> final(self).pending_imports@ == old(self).pending_imports@)
                    &&& (!merged ==> forall|n: Seq<char>|
                        #[trigger] spec_name_mem(final(self).pending_imports@, n) == (
                        spec_name_mem(old(self).pending_imports@, n) || n == name))
                })
            }),
            handler_step(
                *old(tree),
                *final(tree),
                *old(self),
                *final(self),
                spec_import_stmt(
                    old(self).tokens@,
                    old(tree).imports@,
                    pre_step(*old(tree), *old(self)),
                ),
            ),
    {
        let ghost c0 = tree.constants@;
        let ghost segs0 = tree.segments@;
        let ghost errs0 = self.errors@;
        let ghost pend0 = self.pending_imports@;
        let name_tok = match self.parse_of_type(TokenKind::Identifier) {
            Ok(t) => t,
            Err(e) => {
                self.errors.push(e);
                proof {
                    lemma_step_frames(errs0, self.errors@, segs0, tree.segments@, c0);
                }
                return;
            },
        };
        let name = match name_tok.value {
            Some(ValueKind::Word(w)) => w,
            _ => {
                proof {
                    assert(false);
                }
                String::new()
            },
        };
        if tree.has_import(name.as_str()) {
            proof {
                lemma_step_frames(errs0, self.errors@, segs0, tree.segments@, c0);
            }
            return;
        }
        let ghost n = name@;
        insert_name_sorted(&mut self.pending_imports, name);
        proof {
            lemma_step_frames(errs0, self.errors@, segs0, tree.segments@, c0);
            assert(pending_model(self.pending_imports@) =~= pending_model(pend0).insert(n));
        }
    }
}

/// Both compare the same token stream of the same file.
spec fn unchanged_stream(a: &Parser, b: &Parser) -> bool {
    a.tokens@ == b.tokens@ && a.file_name@ == b.file_name@
}

/// Nothing collected so far has changed.
spec fn unchanged_collect(a: &Parser, b: &Parser) -> bool {
    &&& a.errors@ == b.errors@
    &&& a.current_segment == b.current_segment
    &&& a.pending_imports@ == b.pending_imports@
}

/// Nothing collected but the error list has changed.
spec fn unchanged_collect_but_errors(a: &Parser, b: &Parser) -> bool {
    &&& a.current_segment == b.current_segment
    &&& a.pending_imports@ == b.pending_imports@
}

/// Binding a fresh name preserves everything already resolved.
proof fn lemma_preserves_after_new(
    a: Seq<(String, ConstantType)>,
    b: Seq<(String, ConstantType)>,
    key: Seq<char>,
)
    requires
        spec_lookup(a, key) is None,
        spec_lookup(b, key) is Some,
        forall|n: Seq<char>|
            n != key ==> #[trigger] spec_lookup(b, n) == spec_lookup(a, n),
    ensures
        preserves_resolved(a, b),
{
    assert forall|n: Seq<char>| (#[trigger] spec_lookup(a, n)) is Some implies (spec_lookup(
        b,
        n,
    ) is Some && (spec_lookup(a, n) != Some(ConstantType::Unknown) ==> spec_lookup(b, n)
        == spec_lookup(a, n))) by {
        if n != key {
            assert(spec_lookup(b, n) == spec_lookup(a, n));
        }
    }
}

/// The synthetic name of an import's entry segment.
fn import_entry_name(file: &String) -> (r: String)
    ensures
        r@ == "__import_entry_"@ + file@ + "__"@,
{
    String::from_str("__import_entry_").concat(file.as_str()).concat("__")
}

/// The synthetic name of a segment opened by `#skipto` without a label.
fn auto_label_name(file: &String, id: u32) -> (r: String)
    ensures
        r@ == "__auto_label_"@ + file@ + "_segment_"@ + crate::helium::text::spec_decimal(id as int)
            + "__"@,
{
    String::from_str("__auto_label_").concat(file.as_str()).concat("_segment_").concat(
        u64_to_string(id as u64).as_str(),
    ).concat("__")
}

/// Whether a directive word asks for another file to be merged. The word is
/// spelled out character by character.
fn is_import_directive(s: &str) -> (r: bool)
    ensures
        r == (s@ =~= import_directive_name()),
{
    let r = s.unicode_len() == 7 && s.get_char(0) == 'i' && s.get_char(1) == 'n' && s.get_char(2)
        == 'c' && s.get_char(3) == 'l' && s.get_char(4) == 'u' && s.get_char(5) == 'd'
        && s.get_char(6) == 'e';
    proof {
        if s@.len() == 7 {
            assert(r == (s@ =~= import_directive_name()));
        }
    }
    r
}

/// The directive word that pulls another file in.
pub open spec fn import_directive_name() -> Seq<char> {
    seq!['i', 'n', 'c', 'l', 'u', 'd', 'e']
}

} // verus!
