//! Which loader a model file goes to.
use vstd::prelude::*;

use crate::gguf::string_is;

verus! {

/// The loaders of the supported model files.
#[derive(Debug, Clone, Copy, PartialEq, Eq, Structural)]
pub enum ModelLoader {
    /// A GGUF file.
    Gguf,
    /// An lm.rs file.
    Lmrs,
    /// A safetensors file, run with the parallel forward pass.
    Safetensors,
    /// A safetensors file, run with the sequential forward pass.
    SafetensorsSequential,
}

/// The extension of a path as `std::path::Path::extension` gives it (as
/// UTF-8), if any.
pub uninterp spec fn path_extension(path: Seq<char>) -> Option<Seq<char>>;

/// Calls `std::path::Path::extension` on the path and keeps the extension
/// when it is UTF-8 (which it is for a path made from a `&str`). The
/// extension is a function of the path alone, named [`path_extension`];
/// the rules for it (the part of the last component after its last dot,
/// none for a leading dot alone) are left to that name.
#[verifier::external_body]
fn extension_of(path: &str) -> (r: Option<String>)
    ensures
        match r {
            Some(e) => path_extension(path@) == Some(e@),
            None => path_extension(path@) is None,
        },
{
    std::path::Path::new(path).extension().and_then(|s| s.to_str()).map(|s| s.to_string())
}

/// The loader for a file extension: `gguf`, `lmrs`, and `safetensors`
/// (sequential or not); none for other extensions or none.
pub open spec fn spec_loader_for(ext: Option<Seq<char>>, sequential: bool) -> Option<ModelLoader> {
    match ext {
        Some(e) => if e == "gguf"@ {
            Some(ModelLoader::Gguf)
        } else if e == "lmrs"@ {
            Some(ModelLoader::Lmrs)
        } else if e == "safetensors"@ {
            if sequential {
                Some(ModelLoader::SafetensorsSequential)
            } else {
                Some(ModelLoader::Safetensors)
            }
        } else {
            None
        },
        None => None,
    }
}

/// The loader for a model path, chosen by its extension (see
/// [`spec_loader_for`]).
pub fn loader_for_path(path: &str, sequential: bool) -> (r: Option<ModelLoader>)
    ensures
        r == spec_loader_for(path_extension(path@), sequential),
{
    match extension_of(path) {
        Some(e) => {
            if string_is(&e, "gguf") {
                Some(ModelLoader::Gguf)
            } else if string_is(&e, "lmrs") {
                Some(ModelLoader::Lmrs)
            } else if string_is(&e, "safetensors") {
                if sequential {
                    Some(ModelLoader::SafetensorsSequential)
                } else {
                    Some(ModelLoader::Safetensors)
                }
            } else {
                None
            }
        },
        None => None,
    }
}

/// GGUF models are loaded only for the `llama` architecture.
pub fn gguf_architecture_supported(arch: &String) -> (r: bool)
    ensures
        r == (arch@ == "llama"@),
{
    string_is(arch, "llama")
}

} // verus!
