use helium_asm::helium::lexer::Lexer;
use helium_asm::helium::parsing::constant_type::ConstantType;
use helium_asm::helium::parsing::error::ParserError;
use helium_asm::helium::parsing::parser::Parser;
use helium_asm::helium::parsing::program_element::ProgramElement;
use helium_asm::helium::parsing::program_tree::ProgramTree;
use helium_asm::helium::instructions::AsmInstruction;
use helium_asm::helium::validator::validate_tree;

fn parse_root(src: &str) -> Result<ProgramTree, Vec<ParserError>> {
    let tokens = Lexer::new("test", src).tokenize().unwrap();
    Parser::new(tokens, String::from("test")).parse(None)
}

fn import_word() -> String {
    vec!['i', 'n', 'c', 'l', 'u', 'd', 'e'].into_iter().collect()
}

#[test]
fn move_with_one_argument_fails_validation() {
    let tree = parse_root("mov $A;").unwrap();
    let errors = validate_tree(&tree);
    assert_eq!(errors.len(), 1);
    assert_eq!(errors[0].message, "Not enough arguments, expected: 2, got: 1.");
}

#[test]
fn halt_with_an_argument_fails_validation() {
    let tree = parse_root("hlt $A;").unwrap();
    let errors = validate_tree(&tree);
    assert_eq!(errors.len(), 1);
    assert_eq!(errors[0].message, "Too many arguments, expected: 0, got: 1.");
}

#[test]
fn undeclared_identifier_fails_to_parse() {
    let errs = parse_root("mov $A, foo;").unwrap_err();
    assert!(errs.iter().any(
        |e| matches!(e, ParserError::UnknownIdentifier { name } if name == "foo"),
    ));
}

#[test]
fn first_constant_declaration_wins() {
    let tokens = Lexer::new("test", "const A 1;\nconst A 2;").tokenize().unwrap();
    let mut tree = ProgramTree::new(String::from("test"));
    let fp = Parser::new(tokens, String::from("test")).parse_file(&mut tree, false);
    assert_eq!(fp.errors.len(), 1);
    assert!(matches!(
        &fp.errors[0],
        ParserError::ConstantCollision { name, .. } if name == "A"
    ));
    assert_eq!(tree.resolve_const("A"), Some(ConstantType::Value(1)));
}

#[test]
fn duplicate_constant_yields_one_collision_error() {
    let errs = parse_root("const A 1;\nconst A 2;").unwrap_err();
    assert_eq!(errs.len(), 1);
    assert!(matches!(
        &errs[0],
        ParserError::ConstantCollision { name, .. } if name == "A"
    ));
}

#[test]
fn skipto_opens_an_auto_named_segment() {
    let tree = parse_root("#skipto 100\nmov $A, 1;").unwrap();
    assert_eq!(tree.segments.len(), 2);
    assert_eq!(tree.segments[0].name, "entry");
    assert_eq!(tree.segments[0].origin, None);
    assert!(tree.segments[0].elements.is_empty());
    assert_eq!(tree.segments[1].origin, Some(100));
    assert!(tree.segments[1].name.starts_with("__auto_label_"));
    match &tree.segments[1].elements[0] {
        ProgramElement::Instruction(ins) => assert_eq!(ins.kind, AsmInstruction::Move),
        other => panic!("expected an instruction, got {:?}", other),
    }
}

#[test]
fn skipto_with_label_names_the_segment() {
    let tree = parse_root("#skipto 5 start:\nhlt;").unwrap();
    assert_eq!(tree.segments.len(), 2);
    assert_eq!(tree.segments[1].name, "start");
    assert_eq!(tree.segments[1].origin, Some(5));
    assert_eq!(tree.resolve_const("start"), Some(ConstantType::Label));
}

#[test]
fn label_declares_and_opens_a_segment() {
    let tree = parse_root("top:\ntop;\n5;").unwrap();
    assert_eq!(tree.resolve_const("top"), Some(ConstantType::Label));
    assert_eq!(tree.segments.len(), 2);
    assert_eq!(tree.segments[1].name, "top");
    assert!(matches!(&tree.segments[1].elements[0], ProgramElement::Identifier(n) if n == "top"));
    assert!(matches!(&tree.segments[1].elements[1], ProgramElement::Immediate(5)));
}

#[test]
fn root_parse_appends_a_halt() {
    let tree = parse_root("nop;").unwrap();
    let last = tree.segments.last().unwrap();
    match last.elements.last().unwrap() {
        ProgramElement::Instruction(ins) => assert_eq!(ins.kind, AsmInstruction::Halt),
        other => panic!("expected the closing halt, got {:?}", other),
    }
}

#[test]
fn bare_register_statement_is_an_error() {
    let errs = parse_root("$1;").unwrap_err();
    assert!(errs.iter().any(
        |e| matches!(e, ParserError::Named { error } if error == "Unexpected Token: Register(1)"),
    ));
}

#[test]
fn alien_token_inside_instruction_is_skipped() {
    let errs = parse_root("mov $A, #dir;").unwrap_err();
    assert!(errs.iter().any(|e| matches!(
        e,
        ParserError::Named { error }
            if error == "Mismatched Types. expected: Identifier, Register Or Integer; found: Directive"
    )));
}

#[test]
fn unknown_directive_is_reported_and_skipped() {
    let errs = parse_root("#frobnicate 1 2;\nnop;").unwrap_err();
    assert_eq!(errs.len(), 1);
    assert!(matches!(
        &errs[0],
        ParserError::UnknownDirective { name } if name == "frobnicate"
    ));
}

#[test]
fn unresolved_names_come_back_ascending() {
    // Referenced, never declared: reported once each, in ascending name order
    // whatever the declaration order.
    let errs = parse_root("#no_predec\nmov $zz, aa;\nmov $mm, aa;").unwrap_err();
    let names: Vec<&str> = errs
        .iter()
        .filter_map(|e| match e {
            ParserError::UnknownIdentifier { name } => Some(name.as_str()),
            _ => None,
        })
        .collect();
    assert_eq!(names, vec!["aa", "mm", "zz"]);
}

#[test]
fn no_predec_suppresses_default_aliases() {
    let errs = parse_root("#no_predec\nmov $A, 1;").unwrap_err();
    assert!(errs.iter().any(
        |e| matches!(e, ParserError::UnknownIdentifier { name } if name == "A"),
    ));
}

#[test]
fn default_aliases_resolve_register_names() {
    let tree = parse_root("mov $A, 1;\nmov $rSP, 2;").unwrap();
    assert_eq!(tree.resolve_const("A"), Some(ConstantType::Value(0)));
    assert_eq!(tree.resolve_const("rSP"), Some(ConstantType::Value(6)));
}

#[test]
fn constant_after_eof_is_an_error() {
    let errs = parse_root("const").unwrap_err();
    assert!(errs.iter().any(|e| matches!(e, ParserError::UnexpectedEOF)));
}

#[test]
fn constant_with_wrong_token_kind_is_an_error() {
    let errs = parse_root("const 5 5;").unwrap_err();
    assert!(errs.iter().any(|e| matches!(
        e,
        ParserError::MismatchedTypes { .. }
    )));
}

#[test]
fn missing_import_file_is_reported() {
    let src = format!("#{} extra_file\nnop;", import_word());
    let errs = parse_root(&src).unwrap_err();
    assert!(errs.iter().any(
        |e| matches!(e, ParserError::FileNotFound(n) if n == "extra_file"),
    ));
}

#[test]
fn pending_imports_come_out_sorted() {
    let w = import_word();
    let src = format!("#{} zz\n#{} aa\nnop;", w, w);
    let tokens = Lexer::new("test", &src).tokenize().unwrap();
    let mut tree = ProgramTree::new(String::from("test"));
    let fp = Parser::new(tokens, String::from("test")).parse_file(&mut tree, false);
    assert!(fp.errors.is_empty());
    assert_eq!(fp.imports, vec![String::from("aa"), String::from("zz")]);
}

#[test]
fn import_of_a_default_alias_name_is_ignored() {
    let src = format!("#{} A\nnop;", import_word());
    let tree = parse_root(&src).unwrap();
    assert_eq!(tree.imports, vec![String::from("test")]);
}

#[test]
fn child_scan_exempts_default_alias_names() {
    // An import referencing a default alias: the per-import scan must not
    // report it while defaults are still allowed, since defaults arrive only
    // at root completion.
    let tokens = Lexer::new("child", "mov $A, 1;").tokenize().unwrap();
    let mut tree = ProgramTree::new(String::from("root"));
    let fp = Parser::new(tokens, String::from("child")).parse_file(&mut tree, true);
    assert!(fp.errors.is_empty());
    assert!(tree.check_all_resolved(true).is_ok());
    // The root-level scan, run before completion, would still see it.
    let unresolved = tree.check_all_resolved(false).unwrap_err();
    assert_eq!(unresolved, vec![String::from("A")]);
    // Once defaults are suppressed, the exemption no longer applies.
    let tokens2 = Lexer::new("child2", "#no_predec\nmov $B, 1;").tokenize().unwrap();
    let mut tree2 = ProgramTree::new(String::from("root2"));
    let fp2 = Parser::new(tokens2, String::from("child2")).parse_file(&mut tree2, true);
    assert!(fp2.errors.is_empty());
    let unresolved2 = tree2.check_all_resolved(true).unwrap_err();
    assert_eq!(unresolved2, vec![String::from("B")]);
}

#[test]
fn child_parse_records_itself_as_merged() {
    let tokens = Lexer::new("child", "nop;").tokenize().unwrap();
    let mut tree = ProgramTree::new(String::from("root"));
    let _ = Parser::new(tokens, String::from("child")).parse_file(&mut tree, true);
    assert!(tree.has_import("child"));
    assert_eq!(tree.segments.last().unwrap().name, "__import_entry_child__");
}

#[test]
fn defaults_replace_colliding_user_constants_at_completion() {
    // A user constant that shadows a default alias is overwritten when the
    // defaults are injected at root completion.
    let tree = parse_root("const A 7;").unwrap();
    assert_eq!(tree.resolve_const("A"), Some(ConstantType::Value(0)));
}

#[test]
fn argument_type_mismatch_is_reported_per_slot() {
    let tree = parse_root("psh 5;").unwrap();
    let errors = validate_tree(&tree);
    assert_eq!(errors.len(), 1);
    assert_eq!(errors[0].message, "Invalid argument type, expected: Register, got: Integer.");
}

#[test]
fn valid_program_passes_validation() {
    let tree = parse_root("mov $A, 1;\nadd $A, $B, $C;\nhlt;").unwrap();
    assert!(validate_tree(&tree).is_empty());
}

#[test]
fn parser_error_messages_read_well() {
    let e = ParserError::UnknownIdentifier { name: String::from("foo") };
    assert_eq!(e.message(), "Unknown Identifier: 'foo'");
    let f = ParserError::FileNotFound(String::from("lib.hsm"));
    assert_eq!(f.message(), "File Not Found: lib.hsm");
}

#[test]
fn tree_tracks_constants_and_imports() {
    let mut tree = ProgramTree::new(String::from("main"));
    assert!(!tree.has_const("x"));
    tree.add_const(String::from("x"), ConstantType::Value(3));
    assert!(tree.has_const("x"));
    assert_eq!(tree.resolve_const("x"), Some(ConstantType::Value(3)));
    tree.add_const(String::from("x"), ConstantType::Value(4));
    assert_eq!(tree.resolve_const("x"), Some(ConstantType::Value(4)));
    assert!(tree.has_import("main"));
    assert!(tree.has_import("A")); // a default alias counts as merged
    tree.add_import(String::from("zeta"));
    tree.add_import(String::from("beta"));
    tree.add_import(String::from("zeta"));
    assert_eq!(
        tree.imports,
        vec![String::from("beta"), String::from("main"), String::from("zeta")],
    );
}
