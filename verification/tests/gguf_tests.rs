//! GGUF metadata, tensor descriptors and model configuration.

use yallma3_llm::gguf::{
    get_metadata_float, get_metadata_optional_bool, get_metadata_optional_string, get_metadata_optional_u64,
    get_metadata_string, get_metadata_token_id, get_metadata_u64, ggml_type_name, gguf_format,
    find_tensor, gguf_alignment, gguf_magic_and_version, gguf_tokenizer_parts, has_gguf_v3_header, llama_config,
    llama_config_problem, lookup, parse_gguf_metadata, read_gguf_architecture, read_gguf_string,
    read_gguf_value, read_tensor_infos, skip_gguf_value, tensor_data_start, GgufConfigError, GgufError,
    GgufFloat, GgufValue, RequiredKey, TensorInfo,
};
use yallma3_llm::quantization::QuantType;
use yallma3_llm::tokenizer::Tokenizer;
use yallma3_llm::WeightFormat;

fn gstr(out: &mut Vec<u8>, s: &str) {
    out.extend_from_slice(&(s.len() as u64).to_le_bytes());
    out.extend_from_slice(s.as_bytes());
}

enum V<'a> {
    U32(u32),
    U64(u64),
    F32(f32),
    Bool(bool),
    Str(&'a str),
    Strs(Vec<&'a str>),
}

fn kv(out: &mut Vec<u8>, key: &str, v: V) {
    gstr(out, key);
    match v {
        V::U32(x) => {
            out.extend_from_slice(&4u32.to_le_bytes());
            out.extend_from_slice(&x.to_le_bytes());
        }
        V::U64(x) => {
            out.extend_from_slice(&10u32.to_le_bytes());
            out.extend_from_slice(&x.to_le_bytes());
        }
        V::F32(x) => {
            out.extend_from_slice(&6u32.to_le_bytes());
            out.extend_from_slice(&x.to_le_bytes());
        }
        V::Bool(x) => {
            out.extend_from_slice(&7u32.to_le_bytes());
            out.push(x as u8);
        }
        V::Str(x) => {
            out.extend_from_slice(&8u32.to_le_bytes());
            gstr(out, x);
        }
        V::Strs(xs) => {
            out.extend_from_slice(&9u32.to_le_bytes());
            out.extend_from_slice(&8u32.to_le_bytes());
            out.extend_from_slice(&(xs.len() as u64).to_le_bytes());
            for x in xs {
                gstr(out, x);
            }
        }
    }
}

fn header(tensors: u64, kvs: u64) -> Vec<u8> {
    let mut d = Vec::new();
    d.extend_from_slice(b"GGUF");
    d.extend_from_slice(&3u32.to_le_bytes());
    d.extend_from_slice(&tensors.to_le_bytes());
    d.extend_from_slice(&kvs.to_le_bytes());
    d
}

fn llama_file() -> Vec<u8> {
    let mut d = header(1, 12);
    kv(&mut d, "general.architecture", V::Str("llama"));
    kv(&mut d, "llama.embedding_length", V::U32(64));
    kv(&mut d, "llama.feed_forward_length", V::U32(128));
    kv(&mut d, "llama.block_count", V::U32(2));
    kv(&mut d, "llama.attention.head_count", V::U32(4));
    kv(&mut d, "llama.attention.head_count_kv", V::U32(2));
    kv(&mut d, "llama.attention.layer_norm_rms_epsilon", V::F32(1e-5));
    kv(&mut d, "llama.context_length", V::U32(8192));
    kv(&mut d, "general.file_type", V::U32(2));
    kv(&mut d, "tokenizer.ggml.tokens", V::Strs(vec!["a", "b", "ab"]));
    kv(&mut d, "tokenizer.ggml.merges", V::Strs(vec!["a b"]));
    kv(&mut d, "tokenizer.ggml.add_bos_token", V::Bool(false));
    // One tensor descriptor.
    gstr(&mut d, "token_embd.weight");
    d.extend_from_slice(&2u32.to_le_bytes());
    d.extend_from_slice(&64u64.to_le_bytes());
    d.extend_from_slice(&3u64.to_le_bytes());
    d.extend_from_slice(&8u32.to_le_bytes());
    d.extend_from_slice(&0u64.to_le_bytes());
    d
}

#[test]
fn architecture_is_found() {
    assert_eq!(read_gguf_architecture(&llama_file()).unwrap(), "llama");
    let mut d = header(0, 1);
    kv(&mut d, "general.name", V::Str("x"));
    assert_eq!(read_gguf_architecture(&d).unwrap_err(), GgufError::ArchitectureNotFound);
    let mut bad = llama_file();
    bad[0] = b'X';
    assert_eq!(read_gguf_architecture(&bad).unwrap_err(), GgufError::BadMagic);
}

#[test]
fn values_are_read_and_skipped_alike() {
    let mut d = Vec::new();
    d.extend_from_slice(&8u32.to_le_bytes());
    d.extend_from_slice(&2u64.to_le_bytes());
    gstr(&mut d, "hi");
    gstr(&mut d, "there");
    let (v, end) = read_gguf_value(&d, 0, 9).unwrap();
    assert_eq!(end, d.len());
    assert_eq!(skip_gguf_value(&d, 0, 9).unwrap(), end);
    match v {
        GgufValue::Array(items) => assert_eq!(items.len(), 2),
        _ => panic!("expected an array"),
    }
    let unknown_elems = [13u8, 0, 0, 0, 1, 0, 0, 0, 0, 0, 0, 0];
    assert_eq!(skip_gguf_value(&unknown_elems, 0, 9).unwrap_err(), GgufError::UnknownValueType(13));
    let two_u32 = [4u8, 0, 0, 0, 2, 0, 0, 0, 0, 0, 0, 0, 1, 0, 0, 0, 2, 0, 0, 0];
    assert_eq!(skip_gguf_value(&two_u32, 0, 9), Ok(20));
    // Scalars are skipped by their width without being read; strings need their length.
    assert_eq!(skip_gguf_value(&d, d.len(), 10), Ok(d.len() + 8));
    assert_eq!(skip_gguf_value(&d, d.len(), 8).unwrap_err(), GgufError::Truncated);
    let (s, o) = read_gguf_string(&d, 12).unwrap();
    assert_eq!((s.as_str(), o), ("hi", 22));
}

#[test]
fn metadata_lookups() {
    let d = llama_file();
    let (meta, _) = parse_gguf_metadata(&d).unwrap();
    assert_eq!(meta.version, 3);
    assert_eq!(meta.tensor_count, 1);
    assert_eq!(get_metadata_string(&meta, "general.architecture").as_deref(), Some("llama"));
    assert_eq!(get_metadata_u64(&meta, "llama.block_count"), Some(2));
    assert_eq!(get_metadata_u64(&meta, "missing"), None);
    assert_eq!(get_metadata_optional_u64(&meta, "missing", 9), 9);
    assert!(!get_metadata_optional_bool(&meta, "tokenizer.ggml.add_bos_token", true));
    assert!(get_metadata_optional_bool(&meta, "missing", true));
    assert_eq!(get_metadata_optional_string(&meta, "missing", "default"), "default");
    assert_eq!(
        get_metadata_float(&meta, "llama.attention.layer_norm_rms_epsilon"),
        Some(GgufFloat::F32Bits(1e-5f32.to_bits()))
    );
    assert_eq!(get_metadata_token_id(&meta, "tokenizer.ggml.bos_token_id", 128000), 128000);
    assert!(lookup(&meta, "llama.context_length").is_some());
}

#[test]
fn llama_configuration() {
    let d = llama_file();
    let (meta, end) = parse_gguf_metadata(&d).unwrap();
    let c = llama_config(&meta, 4096, None).unwrap();
    assert_eq!((c.dim, c.hidden_dim, c.n_layers, c.n_heads, c.n_kv_heads), (64, 128, 2, 4, 2));
    assert_eq!(c.head_size, 16);
    assert_eq!((c.seq_len, c.ctx_len), (8192, 4096));
    assert_eq!(c.vocab_size, 3);
    assert_eq!((c.q_type, c.weight_format), (QuantType::Q4_0, WeightFormat::Q4_0));
    assert_eq!(c.rope_original_ctx_len, 8192);
    let c = llama_config(&meta, u32::MAX, Some(WeightFormat::F16)).unwrap();
    assert_eq!((c.ctx_len, c.weight_format), (8192, WeightFormat::F16));
    let (infos, after) = read_tensor_infos(&d, end, meta.tensor_count).unwrap();
    assert_eq!(after, d.len());
    assert_eq!(infos[0].name, "token_embd.weight");
    assert_eq!(infos[0].n_elements, 192);
    assert_eq!(ggml_type_name(infos[0].tensor_type), "Q8_0");
    let start = tensor_data_start(&meta, after).unwrap();
    assert_eq!(start % 32, 0);
    assert!(start >= after as u64 && start < after as u64 + 32);
}

#[test]
fn configuration_errors() {
    let mut d = header(0, 1);
    kv(&mut d, "general.architecture", V::Str("gpt2"));
    let (meta, _) = parse_gguf_metadata(&d).unwrap();
    assert_eq!(llama_config_problem(&meta, 10, None), Some(GgufConfigError::NotLlama));
    let mut d = header(0, 0);
    d.truncate(24);
    let (meta, _) = parse_gguf_metadata(&d).unwrap();
    assert_eq!(
        llama_config_problem(&meta, 10, None),
        Some(GgufConfigError::MissingKey(RequiredKey::Architecture))
    );
    assert_eq!(RequiredKey::Architecture.name(), "general.architecture");
    assert_eq!(RequiredKey::Tokens.name(), "tokenizer.ggml.tokens");
    assert_eq!(RequiredKey::RmsEpsilon.name(), "llama.attention.layer_norm_rms_epsilon");
    assert_eq!(gguf_format(None, 7).unwrap(), (QuantType::Q8_0, WeightFormat::Q8_0));
    let mut v = header(0, 0);
    assert!(has_gguf_v3_header(&v));
    v[4] = 2;
    assert!(!has_gguf_v3_header(&v));
    assert_eq!(gguf_magic_and_version(&v), (0x46554747, 2));
    v[0] = b'X';
    assert!(!has_gguf_v3_header(&v));
    assert!(!has_gguf_v3_header(&v[..6]));
}

#[test]
fn tokenizer_from_gguf() {
    let d = llama_file();
    let (meta, _) = parse_gguf_metadata(&d).unwrap();
    let p = gguf_tokenizer_parts(&meta).unwrap();
    assert_eq!(p.vocab, vec!["a", "b", "ab"]);
    assert_eq!(p.merges, vec!["a b"]);
    assert_eq!((p.bos_id, p.eos_id), (128000, 128009));
    assert_eq!(p.pre, "default");
    assert!(!p.add_bos_token);
    let t = Tokenizer::from_gguf_parts(p.vocab, p.merges, p.bos_id, p.eos_id, p.pre, p.add_bos_token, p.add_space_prefix);
    assert_eq!(t.encode("ab", false, false), vec![2]);
}

#[test]
fn alignment_is_read_from_metadata() {
    let mut d = header(0, 1);
    kv(&mut d, "general.alignment", V::U64(24));
    let (meta, _) = parse_gguf_metadata(&d).unwrap();
    assert_eq!(gguf_alignment(&meta), 24);
    assert!(!24u64.is_power_of_two());
    let d = header(0, 0);
    let (meta, end) = parse_gguf_metadata(&d).unwrap();
    assert_eq!(gguf_alignment(&meta), 32);
    assert_eq!(tensor_data_start(&meta, end), Ok(32));
}

#[test]
fn tensors_are_found_by_name() {
    let info = |name: &str, t: u32| TensorInfo { name: name.to_string(), dims: vec![4], tensor_type: t, data_offset: 0, n_elements: 4 };
    let infos = vec![info("a.weight", 0), info("b.weight", 1), info("a.weight", 8)];
    assert_eq!(find_tensor(&infos, "a.weight"), Some(2));
    assert_eq!(find_tensor(&infos, "b.weight"), Some(1));
    assert_eq!(find_tensor(&infos, "c.weight"), None);
}
