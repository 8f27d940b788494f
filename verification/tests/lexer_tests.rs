use helium_asm::helium::lexer::Lexer;
use helium_asm::helium::tokens::TokenKind;
use helium_asm::helium::tokens::ValueKind;

#[test]
fn whitespace_consumption() {
    let input = String::from("      \n   \n");
    let mut lexer = Lexer::new("Test input", &input);
    let out = lexer.tokenize();
    assert!(out.is_ok());

    let tokens = out.unwrap();

    assert_eq!(tokens.len(), 2);

    assert_eq!(tokens[0].kind, TokenKind::Newline);
    assert_eq!(tokens[1].kind, TokenKind::Newline);
}

#[test]
fn empty_file() {
    let input = String::from("");
    let mut lexer = Lexer::new("Test input", &input);
    let out = lexer.tokenize();
    assert!(out.is_ok());

    let tokens = out.unwrap();

    assert!(tokens.is_empty());
}

#[test]
fn consume_comment() {
    let input = "//hello";
    let mut lex = Lexer::new("Test input", input);
    let out = lex.tokenize();

    assert!(out.is_ok());
    let tokens = out.unwrap();

    assert_eq!(tokens.len(), 1)
}

#[test]
fn parse_negative_int() {
    let input = "-100";
    let mut lex = Lexer::new("Test input", input);
    let out = lex.tokenize();

    assert!(out.is_ok());
    let tokens = out.unwrap();

    assert_eq!(tokens[0].kind, TokenKind::Integer)
}

#[test]
fn test_const_declarations() {
    let input = "const Const CONST"; // should only return 2 constant tokens and 1 identifier.

    let mut lexer = Lexer::new("Test input", input);
    let out = lexer.tokenize();
    assert!(out.is_ok());

    let tokens = out.unwrap();

    assert_eq!(tokens.len(), 3);
    assert_eq!(tokens[0].kind, TokenKind::ConstantDeclaration);
    assert_eq!(tokens[1].kind, TokenKind::Identifier);
    assert_eq!(tokens[2].kind, TokenKind::ConstantDeclaration);
}

fn lex(src: &str) -> Result<Vec<helium_asm::helium::tokens::Token>, Vec<helium_asm::helium::errors::HeliumError>> {
    Lexer::new("test", src).tokenize()
}

fn int_value(t: &helium_asm::helium::tokens::Token) -> u16 {
    t.value.clone().unwrap().get_int_value().unwrap()
}

fn word_value(t: &helium_asm::helium::tokens::Token) -> String {
    t.value.clone().unwrap().get_word_value().unwrap()
}

#[test]
fn negative_numeral_is_twos_complement() {
    let tokens = lex("-100").unwrap();
    assert_eq!(tokens.len(), 1);
    assert_eq!(tokens[0].kind, TokenKind::Integer);
    assert_eq!(int_value(&tokens[0]), 65436);
}

#[test]
fn negative_numerals_negate_in_every_base() {
    let tokens = lex("-0x10 -0b1").unwrap();
    assert_eq!(tokens.len(), 2);
    assert_eq!(int_value(&tokens[0]), 65520);
    assert_eq!(int_value(&tokens[1]), 65535);
}

#[test]
fn negative_zero_wraps_to_zero() {
    let tokens = lex("-0").unwrap();
    assert_eq!(tokens.len(), 1);
    assert_eq!(int_value(&tokens[0]), 0);
}

#[test]
fn const_keyword_is_case_sensitive() {
    let tokens = lex("const Const CONST").unwrap();
    assert_eq!(tokens.len(), 3);
    assert_eq!(word_value(&tokens[1]), "Const");
}

#[test]
fn hex_binary_and_underscores() {
    let tokens = lex("0x10 0b101 1_000 0xFFFF").unwrap();
    assert_eq!(tokens.len(), 4);
    assert_eq!(int_value(&tokens[0]), 16);
    assert_eq!(int_value(&tokens[1]), 5);
    assert_eq!(int_value(&tokens[2]), 1000);
    assert_eq!(int_value(&tokens[3]), 65535);
}

#[test]
fn numeral_overflow_is_a_lexical_error() {
    let errs = lex("70000").unwrap_err();
    assert_eq!(errs.len(), 1);
    assert_eq!(errs[0].message, "ParseInt Error");
}

#[test]
fn incompatible_character_is_reported() {
    let errs = lex("a!b").unwrap_err();
    assert_eq!(errs.len(), 1);
    assert_eq!(errs[0].message, "Incompatible char: !");
}

#[test]
fn lone_slash_is_a_malformed_comment() {
    let errs = lex("/x").unwrap_err();
    assert_eq!(errs.len(), 1);
    assert_eq!(errs[0].message, "Malformed comment");
}

#[test]
fn empty_directive_name_is_an_error() {
    let errs = lex("#").unwrap_err();
    assert_eq!(errs.len(), 1);
    assert_eq!(errs[0].message, "Invalid directive name: empty prefix");
}

#[test]
fn register_tokens_carry_number_or_name() {
    let tokens = lex("$3 $abc").unwrap();
    assert_eq!(tokens.len(), 2);
    assert_eq!(tokens[0].kind, TokenKind::Register);
    assert_eq!(int_value(&tokens[0]), 3);
    assert_eq!(tokens[1].kind, TokenKind::Register);
    assert_eq!(word_value(&tokens[1]), "abc");
}

#[test]
fn mnemonic_case_matters() {
    let tokens = lex("mov MOV Mov").unwrap();
    assert_eq!(tokens[0].kind, TokenKind::Instruction);
    assert_eq!(tokens[1].kind, TokenKind::Instruction);
    assert_eq!(tokens[2].kind, TokenKind::Identifier);
}

#[test]
fn label_token_strips_the_colon() {
    let tokens = lex("loop_start:").unwrap();
    assert_eq!(tokens.len(), 1);
    assert_eq!(tokens[0].kind, TokenKind::Label);
    assert_eq!(word_value(&tokens[0]), "loop_start");
}

#[test]
fn comment_consumes_to_end_of_line() {
    let tokens = lex("mov //hello mov\nhlt").unwrap();
    assert_eq!(tokens.len(), 3);
    assert_eq!(tokens[0].kind, TokenKind::Instruction);
    assert_eq!(tokens[1].kind, TokenKind::Newline);
    assert_eq!(tokens[2].kind, TokenKind::Instruction);
}

#[test]
fn token_positions_cover_the_text() {
    let tokens = lex("  mov abc").unwrap();
    let p0 = tokens[0].position.unwrap();
    assert_eq!((p0.line, p0.chr_start, p0.length), (0, 2, 3));
    let p1 = tokens[1].position.unwrap();
    assert_eq!((p1.line, p1.chr_start, p1.length), (0, 6, 3));
    assert!(matches!(tokens[1].value, Some(ValueKind::Word(_))));
}
