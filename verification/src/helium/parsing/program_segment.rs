//! A named, ordered run of program elements, optionally pinned to an origin
//! address.

use crate::helium::parsing::program_element::ProgramElement;
use vstd::prelude::*;

verus! {

#[derive(Debug)]
pub struct ProgramSegment {
    pub name: String,
    pub origin: Option<u16>,
    pub elements: Vec<ProgramElement>,
}

impl ProgramSegment {
    /// Every element of the segment is fit for validation.
    pub open spec fn wf(&self) -> bool {
        forall|k: int| 0 <= k < self.elements@.len() ==> (#[trigger] self.elements@[k]).wf()
    }

    pub fn new(name: &str) -> (r: ProgramSegment)
        ensures
            r.name@ == name@,
            r.origin is None,
            r.elements@ == Seq::<ProgramElement>::empty(),
            r.wf(),
    {
        ProgramSegment { name: String::from_str(name), origin: None, elements: Vec::new() }
    }

    pub fn with_origin(name: &str, origin: u16) -> (r: ProgramSegment)
        ensures
            r.name@ == name@,
            r.origin == Some(origin),
            r.elements@ == Seq::<ProgramElement>::empty(),
            r.wf(),
    {
        ProgramSegment { name: String::from_str(name), origin: Some(origin), elements: Vec::new() }
    }
}

} // verus!
