//! The resolution state of a name: still unknown, a 16-bit value, or a label
//! (whose address a later code generator assigns).

use vstd::prelude::*;

verus! {

#[derive(Debug, Copy, Clone, PartialEq, Eq, Structural)]
pub enum ConstantType {
    Unknown,
    Value(u16),
    Label,
}

impl Default for ConstantType {
    fn default() -> (r: Self)
        ensures
            r == ConstantType::Unknown,
    {
        ConstantType::Unknown
    }
}

} // verus!
