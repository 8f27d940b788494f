//! Parsing: statements, directives, the shared program tree, and the parser
//! that grows it.

pub mod constant_type;
pub mod defaults;
pub mod error;
pub mod parser;
pub mod program_element;
pub mod program_segment;
pub mod program_tree;

pub use constant_type::ConstantType;
pub use error::ParserError;
pub use parser::Parser;
pub use program_element::ProgramElement;
pub use program_segment::ProgramSegment;
pub use program_tree::ProgramTree;
