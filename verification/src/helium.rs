//! The assembler core: tokens, lexer, parser, program tree, validator.

pub mod errors;
pub mod lexer;
pub mod validator;
pub mod parsing;
pub mod instructions;
pub mod tokens;
pub mod position;
pub mod text;
