//! Quantization kinds.
use vstd::prelude::*;

verus! {

/// How the weights of a model are stored.
#[derive(Debug, Copy, Clone, PartialEq, Eq, Structural)]
pub enum QuantType {
    /// Unquantized weights (code 0).
    NoQuant,
    Q8_0,
    Q4_0,
    F16,
}

/// The quantization kind with the given code in an lm.rs header
/// (0 none, 1 Q8_0, 2 Q4_0, 3 F16).
pub open spec fn spec_quant_type_from_code(code: u8) -> Option<QuantType> {
    if code == 0 {
        Some(QuantType::NoQuant)
    } else if code == 1 {
        Some(QuantType::Q8_0)
    } else if code == 2 {
        Some(QuantType::Q4_0)
    } else if code == 3 {
        Some(QuantType::F16)
    } else {
        None
    }
}

/// Decodes a quantization kind code (see [`spec_quant_type_from_code`]).
pub fn quant_type_from_code(code: u8) -> (r: Option<QuantType>)
    ensures
        r == spec_quant_type_from_code(code),
{
    if code == 0 {
        Some(QuantType::NoQuant)
    } else if code == 1 {
        Some(QuantType::Q8_0)
    } else if code == 2 {
        Some(QuantType::Q4_0)
    } else if code == 3 {
        Some(QuantType::F16)
    } else {
        None
    }
}

} // verus!
