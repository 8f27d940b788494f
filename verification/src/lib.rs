//! Front end of an assembler for a 16-bit register machine: a lexer with
//! positional diagnostics, a parser that grows a shared program tree, and a
//! validator that checks every instruction against a per-opcode signature.

pub mod helium;

use vstd::prelude::*;

verus! {

/// The one piece of configuration the assembler takes: the root source file.
pub struct Config {
    input_file: String,
}

impl Config {
    /// The path of the root source file.
    pub closed spec fn spec_file(&self) -> Seq<char> {
        self.input_file@
    }

    /// Wraps a file path picked by the host program.
    pub fn new(input_file: String) -> (c: Config)
        ensures
            c.spec_file() == input_file@,
    {
        Config { input_file }
    }

    pub fn get_file(self) -> (r: String)
        ensures
            r@ == self.spec_file(),
    {
        self.input_file
    }
}

} // verus!
