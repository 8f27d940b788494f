use helium_asm::helium::errors::{Error, HeliumError};
use helium_asm::helium::instructions::{Argument, AsmInstruction};
use helium_asm::helium::parsing::defaults::{default_constants, default_name};
use helium_asm::helium::position::Position;
use helium_asm::helium::text::{neg16, parse_int, str_eq, str_lt, u64_to_string};
use helium_asm::helium::tokens::{Token, TokenKind, ValueKind};

#[test]
fn double_negation_returns_the_word() {
    // The two's-complement rule, applied twice, modulo 2^16.
    assert_eq!(neg16(0), 0);
    assert_eq!(neg16(100), 65436);
    assert_eq!(neg16(neg16(12345)), 12345);
    assert_eq!(neg16(neg16(65535)), 65535);
}

#[test]
fn integer_words_parse_in_three_bases() {
    assert_eq!(parse_int("100", false), Some(100));
    assert_eq!(parse_int("100", true), Some(65436));
    assert_eq!(parse_int("0xFF", false), Some(255));
    assert_eq!(parse_int("0b1111", false), Some(15));
    assert_eq!(parse_int("1_2_3", false), Some(123));
    assert_eq!(parse_int("", false), None);
    assert_eq!(parse_int("_", false), None);
    assert_eq!(parse_int("0x_", false), None);
    assert_eq!(parse_int("65535", false), Some(65535));
    assert_eq!(parse_int("65536", false), None);
    // Negation applies in every base.
    assert_eq!(parse_int("0x10", true), Some(65520));
    assert_eq!(parse_int("0b1", true), Some(65535));
}

#[test]
fn decimal_rendering_matches() {
    assert_eq!(u64_to_string(0), "0");
    assert_eq!(u64_to_string(7), "7");
    assert_eq!(u64_to_string(65436), "65436");
}

#[test]
fn string_order_is_lexicographic() {
    assert!(str_lt("abc", "abd"));
    assert!(str_lt("ab", "abc"));
    assert!(!str_lt("abc", "abc"));
    assert!(!str_lt("b", "abc"));
    assert!(str_eq("same", "same"));
    assert!(!str_eq("same", "sane"));
}

#[test]
fn mnemonics_map_to_opcodes() {
    assert_eq!(AsmInstruction::match_instruction("mov"), Some(AsmInstruction::Move));
    assert_eq!(AsmInstruction::match_instruction("MOV"), Some(AsmInstruction::Move));
    assert_eq!(AsmInstruction::match_instruction("Mov"), None);
    assert_eq!(AsmInstruction::match_instruction("rcr"), Some(AsmInstruction::ReturnCarry));
    assert_eq!(AsmInstruction::match_instruction("bogus"), None);
}

#[test]
fn argument_kinds_partition() {
    let a = Argument::Register(10);
    assert!(a.is_register());
    assert!(!a.is_integer());
    let b = Argument::RegisterIdentifier(String::from("ArgName"));
    assert!(b.is_register());
    let c = Argument::Immediate(10);
    assert!(c.is_integer());
    assert!(!c.is_register());
    let d = Argument::ImmediateIdentifier(String::from("ArgName"));
    assert!(d.is_integer());
    assert_eq!(a.kind(), "Register");
    assert_eq!(c.kind(), "Integer");
}

#[test]
fn argument_length_counts_characters() {
    assert_eq!(Argument::Register(0).calculate_len(), 1);
    assert_eq!(Argument::Register(10).calculate_len(), 2);
    assert_eq!(Argument::Immediate(65535).calculate_len(), 5);
    assert_eq!(Argument::RegisterIdentifier(String::from("ArgName")).calculate_len(), 7);
}

#[test]
fn token_builders_fill_the_fields() {
    let t = Token::from_kind(TokenKind::SemiColon)
        .set_file_name(String::from("f.hsm"))
        .set_position(3, 4, 1);
    assert_eq!(t.kind, TokenKind::SemiColon);
    assert_eq!(t.file.as_deref(), Some("f.hsm"));
    assert_eq!(t.position, Some(Position::new(3, 4, 1)));

    let v = Token::with_value(TokenKind::Integer, ValueKind::Integer(9));
    assert_eq!(v.value.clone().unwrap().get_int_value(), Some(9));
    assert_eq!(v.value.unwrap().get_word_value(), None);

    let w = Token::new(
        TokenKind::Identifier,
        Some(ValueKind::Word(String::from("w"))),
        None,
        None,
    )
    .set_value(ValueKind::Word(String::from("x")));
    assert_eq!(w.value.unwrap().get_word_value(), Some(String::from("x")));
}

#[test]
fn value_kind_getters_match_variants() {
    assert_eq!(
        ValueKind::Instruction(AsmInstruction::Halt).get_instruction_code(),
        Some(AsmInstruction::Halt),
    );
    assert_eq!(ValueKind::Integer(4).get_instruction_code(), None);
    assert_eq!(ValueKind::Word(String::from("a")).get_word_value(), Some(String::from("a")));
}

#[test]
fn default_alias_table_is_complete() {
    let table = default_constants();
    assert_eq!(table.len(), 21);
    assert!(default_name("A"));
    assert!(default_name("rSP"));
    assert!(default_name("r6"));
    assert!(!default_name("Q"));
    assert!(table.iter().all(|(n, _)| default_name(n)));
}

#[test]
fn legacy_errors_carry_line_and_text() {
    let e = Error::UnknownIdentifier(String::from("foo"), 12);
    assert_eq!(e.get_line(), 12);
    assert_eq!(e.get_err(), "foo");
    let eof = Error::UnexpectedEOF(3);
    assert_eq!(eof.get_err(), "Eof");
}

#[test]
fn helium_error_keeps_message_and_position() {
    let e = HeliumError::new(String::from("boom"), Position::new(1, 2, 3));
    assert_eq!(e.message, "boom");
    assert_eq!(e.pos, Position::new(1, 2, 3));
}
