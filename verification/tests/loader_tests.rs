//! Model files: weight blocks, lm.rs and safetensors headers, loader choice.

use yallma3_llm::base_transformer::ModelFamily;
use yallma3_llm::blocks::{
    q4_0_span_of, q8_0_span_of, read_i8_values, read_u16_words, read_u32_words, unpack_packed_i8, unpack_q4_0,
    unpack_q8_0,
};
use yallma3_llm::lmrs::{capped_ctx_len, ctx_len_capped, has_lmrs_header, lmrs_layout, parse_lmrs_header, LmrsError};
use yallma3_llm::model_loader::{gguf_architecture_supported, loader_for_path, ModelLoader};
use yallma3_llm::quantization::QuantType;
use yallma3_llm::safetensors::{
    parse_st_config, read_st_tensors, st_config_seq_format, st_config_weight_format, StConfigError, StHeaderError,
};
use yallma3_llm::sampler::random_u32;
use yallma3_llm::WeightFormat;

#[test]
fn q8_0_blocks_unpack() {
    // Two blocks for 40 values: the second holds only 8.
    let mut d = vec![0xEEu8];
    d.extend_from_slice(&0x3C00u16.to_le_bytes());
    for j in 0..32u8 {
        d.push(j.wrapping_mul(9));
    }
    d.extend_from_slice(&0xBC00u16.to_le_bytes());
    for j in 0..8u8 {
        d.push(200 + j);
    }
    assert_eq!(q8_0_span_of(40), Some(44));
    let (vals, scales) = unpack_q8_0(&d, 1, 40);
    assert_eq!(scales, vec![0x3C00, 0xBC00]);
    assert_eq!(vals.len(), 40);
    assert_eq!(vals[5], 45);
    assert_eq!(vals[31], 31u8.wrapping_mul(9) as i8);
    assert_eq!(vals[32], 200u8 as i8);
    assert_eq!(vals[39], 207u8 as i8);
}

#[test]
fn q4_0_blocks_unpack() {
    let mut d = Vec::new();
    d.extend_from_slice(&0x1234u16.to_le_bytes());
    for j in 0..16u8 {
        d.push((j << 4) | (15 - j));
    }
    assert_eq!(q4_0_span_of(20), Some(18));
    let (vals, scales) = unpack_q4_0(&d, 0, 20);
    assert_eq!(scales, vec![0x1234]);
    assert_eq!(vals.len(), 20);
    assert_eq!(&vals[..4], &[7, 6, 5, 4]);
    assert_eq!(&vals[16..20], &[-8, -7, -6, -5]);
}

#[test]
fn q4_0_zero_nibbles_are_minus_eight() {
    let mut d = Vec::new();
    d.extend_from_slice(&0x3C00u16.to_le_bytes());
    d.extend_from_slice(&[0u8; 16]);
    let (vals, scales) = unpack_q4_0(&d, 0, 32);
    assert_eq!(scales, vec![0x3C00]);
    assert_eq!(vals, vec![-8i8; 32]);
}

#[test]
fn plain_arrays() {
    let d: Vec<u8> = vec![1, 2, 3, 4, 5, 6, 7, 8, 0xFF];
    assert_eq!(read_u16_words(&d, 1, 2), vec![0x0302, 0x0504]);
    assert_eq!(read_u32_words(&d, 0, 2), vec![0x04030201, 0x08070605]);
    assert_eq!(read_i8_values(&d, 7, 2), vec![8, -1]);
}

#[test]
fn packed_rows_unpack() {
    // 2 rows of 6 columns: one word (4 values) per row, 2 zero columns.
    let d: Vec<u8> = vec![0, 1, 2, 3, 0x80, 5, 6, 7, 0xFF];
    let v = unpack_packed_i8(&d, 1, 2, 6);
    assert_eq!(v, vec![1, 2, 3, -128, 0, 0, 5, 6, 7, -1, 0, 0]);
}

fn lmrs_file(q_type: u8, family: u8) -> Vec<u8> {
    let mut d = b"lmrs".to_vec();
    d.extend_from_slice(&2u32.to_le_bytes());
    for v in [64u32, 128, 2, 4, 16, 2, 100, 512] {
        d.extend_from_slice(&v.to_le_bytes());
    }
    d.extend_from_slice(&1e-5f32.to_le_bytes());
    d.extend_from_slice(&10000.0f32.to_le_bytes());
    d.push(q_type);
    d.push(family);
    d.extend_from_slice(&32u32.to_le_bytes());
    d.push(0);
    d
}

#[test]
fn lmrs_header_and_layout() {
    let h = parse_lmrs_header(&lmrs_file(1, 1)).unwrap();
    assert_eq!((h.version, h.dim, h.hidden_dim, h.n_layers), (2, 64, 128, 2));
    assert_eq!((h.n_heads, h.head_size, h.n_kv_heads, h.vocab_size, h.seq_len), (4, 16, 2, 100, 512));
    assert_eq!(h.rms_norm_eps_bits, 1e-5f32.to_bits());
    assert_eq!((h.q_type, h.model_type, h.group_size, h.multimodal), (QuantType::Q8_0, ModelFamily::Llama, 32, false));
    let l = lmrs_layout(&h).unwrap();
    let q8 = |n: usize| n + 4 * (n / 32);
    assert_eq!(l.embedding, 256);
    assert_eq!(l.rms_att, 256 + q8(6400));
    assert_eq!(l.wq, l.rms_att + 2 * 256);
    assert_eq!(l.wk, l.wq + 2 * q8(4096));
    assert_eq!(l.wv, l.wk + 2 * q8(2048));
    assert_eq!(l.wo, l.wv + 2 * q8(2048));
    assert_eq!(l.rms_post_att, l.wo + 2 * q8(4096));
    assert_eq!(l.w1, l.rms_post_att + 2 * 256);
    assert_eq!(l.w2, l.w1 + 2 * q8(8192));
    assert_eq!(l.w3, l.w2 + 2 * q8(8192));
    assert_eq!(l.rms_final, l.w3 + 2 * q8(8192));
    assert_eq!(l.end, l.rms_final + 256);
    assert_eq!(capped_ctx_len(512, 100), 100);
    assert!(ctx_len_capped(512, 100));
    assert!(!ctx_len_capped(512, u32::MAX));
}

#[test]
fn lmrs_header_errors() {
    assert!(has_lmrs_header(&lmrs_file(1, 1)));
    assert!(!has_lmrs_header(&lmrs_file(1, 1)[..54]));
    let mut d = lmrs_file(1, 1);
    d[0] = b'x';
    assert!(!has_lmrs_header(&d));
    assert_eq!(parse_lmrs_header(&lmrs_file(4, 1)).unwrap_err(), LmrsError::BadQuantType(4));
    assert_eq!(parse_lmrs_header(&lmrs_file(1, 2)).unwrap_err(), LmrsError::BadModelFamily(2));
    let mut d = lmrs_file(1, 1);
    d[54] = 3;
    assert_eq!(parse_lmrs_header(&d).unwrap_err(), LmrsError::BadFlag(3));
    let mut d = lmrs_file(1, 1);
    d[8..12].copy_from_slice(&0u32.to_le_bytes());
    assert_eq!(parse_lmrs_header(&d).unwrap_err(), LmrsError::ZeroDimension);
    let mut d = lmrs_file(1, 1);
    d[32..36].copy_from_slice(&0u32.to_le_bytes());
    assert_eq!(parse_lmrs_header(&d).unwrap_err(), LmrsError::ZeroLength);
    let mut d = lmrs_file(1, 1);
    d[50..54].copy_from_slice(&0u32.to_le_bytes());
    assert_eq!(parse_lmrs_header(&d).unwrap_err(), LmrsError::ZeroGroupSize);
}

#[test]
fn safetensors_table() {
    let json = r#"{"__metadata__":{"format":"pt"},"a.weight":{"dtype":"F16","shape":[2,3],"data_offsets":[12,24]},"b":{"dtype":"I8","shape":[4],"data_offsets":[0,4]}}"#;
    let mut d = (json.len() as u64).to_le_bytes().to_vec();
    d.extend_from_slice(json.as_bytes());
    d.extend_from_slice(&[0u8; 24]);
    let t = read_st_tensors(&d).unwrap();
    assert_eq!(t.len(), 2);
    let a = t.iter().find(|x| x.name == "a.weight").unwrap();
    assert_eq!(a.dtype, "F16");
    assert_eq!(a.shape, vec![2, 3]);
    assert_eq!(a.offset, 8 + json.len() + 12);
    let b = t.iter().find(|x| x.name == "b").unwrap();
    assert_eq!(b.offset, 8 + json.len());
    assert_eq!(read_st_tensors(&d[..7]).unwrap_err(), StHeaderError::Truncated);
    let mut short = (100u64).to_le_bytes().to_vec();
    short.extend_from_slice(b"{}");
    assert_eq!(read_st_tensors(&short).unwrap_err(), StHeaderError::Truncated);
    let mut bad = (2u64).to_le_bytes().to_vec();
    bad.extend_from_slice(b"{x");
    assert_eq!(read_st_tensors(&bad).unwrap_err(), StHeaderError::NotJson);
    let entry = r#"{"x":{"dtype":"F16","shape":[2],"data_offsets":[]}}"#;
    let mut e = (entry.len() as u64).to_le_bytes().to_vec();
    e.extend_from_slice(entry.as_bytes());
    assert_eq!(read_st_tensors(&e).unwrap_err(), StHeaderError::BadEntry);
}

const CONFIG: &str = r#"{"hidden_size": 64, "intermediate_size": 128, "num_attention_heads": 4,
    "num_key_value_heads": 2, "head_dim": 16, "num_hidden_layers": 2, "vocab_size": 100,
    "max_position_embeddings": 512, "rms_norm_eps": 1e-5, "rope_theta": 10000.0}"#;

#[test]
fn safetensors_config_and_format() {
    let c = parse_st_config(CONFIG).unwrap();
    assert_eq!((c.dim, c.hidden_dim, c.n_heads, c.n_kv_heads, c.head_size), (64, 128, 4, 2, 16));
    assert_eq!((c.n_layers, c.vocab_size, c.max_seq_len), (2, 100, 512));
    assert_eq!(parse_st_config("{}").unwrap_err(), StConfigError::MissingDimension);
    assert_eq!(parse_st_config("nope").unwrap_err(), StConfigError::NotJson);

    let f16 = (QuantType::F16, WeightFormat::F16, 32);
    assert_eq!(st_config_weight_format(CONFIG, None), Ok(f16));
    assert_eq!(st_config_weight_format(CONFIG, Some(WeightFormat::Q8_0)), Ok((QuantType::Q8_0, WeightFormat::Q8_0, 32)));
    let q4 = r#"{"quantization": {"quant_type": "Q4_0", "group_size": 64}}"#;
    assert_eq!(st_config_weight_format(q4, None), Ok((QuantType::Q4_0, WeightFormat::Q4_0, 64)));
    let q8 = r#"{"quantization": {"group_size": 128}}"#;
    assert_eq!(st_config_weight_format(q8, None), Ok((QuantType::Q8_0, WeightFormat::Q8_0, 128)));
    assert_eq!(st_config_weight_format(q8, Some(WeightFormat::F16)), Ok(f16));
    assert_eq!(st_config_weight_format("[1,", None), Err(StConfigError::NotJson));
    assert_eq!(st_config_seq_format(q8, None), Ok((128, true)));
    assert_eq!(st_config_seq_format(q8, Some(WeightFormat::Q4_0)), Ok((32, true)));
    assert_eq!(st_config_seq_format(CONFIG, None), Ok((32, false)));
    assert_eq!(st_config_seq_format("", None), Err(StConfigError::NotJson));
}

#[test]
fn loader_choice() {
    assert_eq!(loader_for_path("m/model.gguf", false), Some(ModelLoader::Gguf));
    assert_eq!(loader_for_path("model.lmrs", true), Some(ModelLoader::Lmrs));
    assert_eq!(loader_for_path("a/b.safetensors", false), Some(ModelLoader::Safetensors));
    assert_eq!(loader_for_path("a/b.safetensors", true), Some(ModelLoader::SafetensorsSequential));
    assert_eq!(loader_for_path("model.bin", false), None);
    assert_eq!(loader_for_path("model", false), None);
    assert_eq!(loader_for_path(".gguf", false), None);
    assert!(gguf_architecture_supported(&"llama".to_string()));
    assert!(!gguf_architecture_supported(&"qwen2".to_string()));
}

#[test]
fn xorshift_random() {
    let mut s: u64 = 42;
    s ^= s >> 12;
    s ^= s << 25;
    s ^= s >> 27;
    let expected = (s.wrapping_mul(0x2545F4914F6CDD1D) >> 32) as u32;
    assert_eq!(random_u32(42), expected);
    assert_eq!(random_u32(0), 0);
}
