//! Verified core of the yaLLMa3 LLaMA inference engine: byte-level model file
//! parsing (GGUF, lm.rs tokenizer files, packed quantized blocks), the BPE
//! tokenizer, and the configuration logic of the command line front end.

pub mod base_transformer;
pub mod blocks;
pub mod bpe;
pub mod cli;
pub mod gguf;
pub mod json;
pub mod lmrs;
pub mod model_loader;
pub mod parallelism;
pub mod quantization;
pub mod roundtrip;
pub mod safetensors;
pub mod sampler;
pub mod tokenizer;
pub mod util;
pub mod vocab_index;
pub mod weight_type;

pub use base_transformer::ModelFamily;
pub use weight_type::WeightFormat;
