//! Weight formats and the unpacking of quantized weight blocks.
use vstd::prelude::*;

use crate::quantization::QuantType;

verus! {

/// The representation the forward pass computes with.
#[derive(Debug, Clone, Copy, PartialEq, Eq, Structural)]
pub enum WeightFormat {
    Q8_0,
    Q4_0,
    F16,
}

/// The quantization kind recorded for a weight format.
pub open spec fn spec_quant_type_of(f: WeightFormat) -> QuantType {
    match f {
        WeightFormat::Q8_0 => QuantType::Q8_0,
        WeightFormat::Q4_0 => QuantType::Q4_0,
        WeightFormat::F16 => QuantType::F16,
    }
}

/// The quantization kind recorded for a weight format.
pub fn quant_type_of(f: WeightFormat) -> (r: QuantType)
    ensures
        r == spec_quant_type_of(f),
{
    match f {
        WeightFormat::Q8_0 => QuantType::Q8_0,
        WeightFormat::Q4_0 => QuantType::Q4_0,
        WeightFormat::F16 => QuantType::F16,
    }
}

} // verus!
