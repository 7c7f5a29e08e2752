//! Model families.
use vstd::prelude::*;

verus! {

/// The architecture family a model belongs to.
#[derive(Debug, Clone, Copy, PartialEq, Eq, Structural)]
pub enum ModelFamily {
    Qwen2,
    Llama,
}

/// The family with the given code in an lm.rs header (0 Qwen2, 1 Llama).
pub open spec fn spec_model_family_from_code(code: u8) -> Option<ModelFamily> {
    if code == 0 {
        Some(ModelFamily::Qwen2)
    } else if code == 1 {
        Some(ModelFamily::Llama)
    } else {
        None
    }
}

/// Decodes a model family code (see [`spec_model_family_from_code`]).
pub fn model_family_from_code(code: u8) -> (r: Option<ModelFamily>)
    ensures
        r == spec_model_family_from_code(code),
{
    if code == 0 {
        Some(ModelFamily::Qwen2)
    } else if code == 1 {
        Some(ModelFamily::Llama)
    } else {
        None
    }
}

} // verus!
