//! The default register aliases: six physical registers, each reachable by a
//! letter name, an `r<letter>` name and an `r<index>` name, index 6 being the
//! stack pointer. They are injected into the root tree once, after parsing,
//! unless suppressed.

use crate::helium::parsing::constant_type::ConstantType;
use crate::helium::text::str_eq;
use vstd::prelude::*;

verus! {

/// The register a default alias names, if the name is one.
pub open spec fn spec_default_value(n: Seq<char>) -> Option<u16> {
    if n == "A"@ {
        Some(0u16)
    } else if n == "rA"@ {
        Some(0u16)
    } else if n == "r0"@ {
        Some(0u16)
    } else if n == "B"@ {
        Some(1u16)
    } else if n == "rB"@ {
        Some(1u16)
    } else if n == "r1"@ {
        Some(1u16)
    } else if n == "C"@ {
        Some(2u16)
    } else if n == "rC"@ {
        Some(2u16)
    } else if n == "r2"@ {
        Some(2u16)
    } else if n == "X"@ {
        Some(3u16)
    } else if n == "rX"@ {
        Some(3u16)
    } else if n == "r3"@ {
        Some(3u16)
    } else if n == "Y"@ {
        Some(4u16)
    } else if n == "rY"@ {
        Some(4u16)
    } else if n == "r4"@ {
        Some(4u16)
    } else if n == "F"@ {
        Some(5u16)
    } else if n == "rF"@ {
        Some(5u16)
    } else if n == "r5"@ {
        Some(5u16)
    } else if n == "SP"@ {
        Some(6u16)
    } else if n == "rSP"@ {
        Some(6u16)
    } else if n == "r6"@ {
        Some(6u16)
    } else {
        None
    }
}

/// Whether a name is one of the default register aliases.
pub open spec fn is_default_name(n: Seq<char>) -> bool {
    spec_default_value(n) is Some
}

/// Looks a name up among the default register aliases.
pub fn default_name_value(s: &str) -> (r: Option<u16>)
    ensures
        r == spec_default_value(s@),
{
    if str_eq(s, "A") {
        Some(0u16)
    } else if str_eq(s, "rA") {
        Some(0u16)
    } else if str_eq(s, "r0") {
        Some(0u16)
    } else if str_eq(s, "B") {
        Some(1u16)
    } else if str_eq(s, "rB") {
        Some(1u16)
    } else if str_eq(s, "r1") {
        Some(1u16)
    } else if str_eq(s, "C") {
        Some(2u16)
    } else if str_eq(s, "rC") {
        Some(2u16)
    } else if str_eq(s, "r2") {
        Some(2u16)
    } else if str_eq(s, "X") {
        Some(3u16)
    } else if str_eq(s, "rX") {
        Some(3u16)
    } else if str_eq(s, "r3") {
        Some(3u16)
    } else if str_eq(s, "Y") {
        Some(4u16)
    } else if str_eq(s, "rY") {
        Some(4u16)
    } else if str_eq(s, "r4") {
        Some(4u16)
    } else if str_eq(s, "F") {
        Some(5u16)
    } else if str_eq(s, "rF") {
        Some(5u16)
    } else if str_eq(s, "r5") {
        Some(5u16)
    } else if str_eq(s, "SP") {
        Some(6u16)
    } else if str_eq(s, "rSP") {
        Some(6u16)
    } else if str_eq(s, "r6") {
        Some(6u16)
    } else {
        None
    }
}

/// Whether a word is a default register alias.
pub fn default_name(s: &str) -> (r: bool)
    ensures
        r == is_default_name(s@),
{
    default_name_value(s).is_some()
}

/// The default alias table as name-value pairs, in declaration order.
pub fn default_constants() -> (r: Vec<(String, ConstantType)>)
    ensures
        r@.len() == 21,
        r@[0].0@ == "A"@ && r@[0].1 == ConstantType::Value(0),
        r@[1].0@ == "rA"@ && r@[1].1 == ConstantType::Value(0),
        r@[2].0@ == "r0"@ && r@[2].1 == ConstantType::Value(0),
        r@[3].0@ == "B"@ && r@[3].1 == ConstantType::Value(1),
        r@[4].0@ == "rB"@ && r@[4].1 == ConstantType::Value(1),
        r@[5].0@ == "r1"@ && r@[5].1 == ConstantType::Value(1),
        r@[6].0@ == "C"@ && r@[6].1 == ConstantType::Value(2),
        r@[7].0@ == "rC"@ && r@[7].1 == ConstantType::Value(2),
        r@[8].0@ == "r2"@ && r@[8].1 == ConstantType::Value(2),
        r@[9].0@ == "X"@ && r@[9].1 == ConstantType::Value(3),
        r@[10].0@ == "rX"@ && r@[10].1 == ConstantType::Value(3),
        r@[11].0@ == "r3"@ && r@[11].1 == ConstantType::Value(3),
        r@[12].0@ == "Y"@ && r@[12].1 == ConstantType::Value(4),
        r@[13].0@ == "rY"@ && r@[13].1 == ConstantType::Value(4),
        r@[14].0@ == "r4"@ && r@[14].1 == ConstantType::Value(4),
        r@[15].0@ == "F"@ && r@[15].1 == ConstantType::Value(5),
        r@[16].0@ == "rF"@ && r@[16].1 == ConstantType::Value(5),
        r@[17].0@ == "r5"@ && r@[17].1 == ConstantType::Value(5),
        r@[18].0@ == "SP"@ && r@[18].1 == ConstantType::Value(6),
        r@[19].0@ == "rSP"@ && r@[19].1 == ConstantType::Value(6),
        r@[20].0@ == "r6"@ && r@[20].1 == ConstantType::Value(6),
{
    let mut v: Vec<(String, ConstantType)> = Vec::new();
    v.push((String::from_str("A"), ConstantType::Value(0)));
    v.push((String::from_str("rA"), ConstantType::Value(0)));
    v.push((String::from_str("r0"), ConstantType::Value(0)));
    v.push((String::from_str("B"), ConstantType::Value(1)));
    v.push((String::from_str("rB"), ConstantType::Value(1)));
    v.push((String::from_str("r1"), ConstantType::Value(1)));
    v.push((String::from_str("C"), ConstantType::Value(2)));
    v.push((String::from_str("rC"), ConstantType::Value(2)));
    v.push((String::from_str("r2"), ConstantType::Value(2)));
    v.push((String::from_str("X"), ConstantType::Value(3)));
    v.push((String::from_str("rX"), ConstantType::Value(3)));
    v.push((String::from_str("r3"), ConstantType::Value(3)));
    v.push((String::from_str("Y"), ConstantType::Value(4)));
    v.push((String::from_str("rY"), ConstantType::Value(4)));
    v.push((String::from_str("r4"), ConstantType::Value(4)));
    v.push((String::from_str("F"), ConstantType::Value(5)));
    v.push((String::from_str("rF"), ConstantType::Value(5)));
    v.push((String::from_str("r5"), ConstantType::Value(5)));
    v.push((String::from_str("SP"), ConstantType::Value(6)));
    v.push((String::from_str("rSP"), ConstantType::Value(6)));
    v.push((String::from_str("r6"), ConstantType::Value(6)));
    v
}

} // verus!
