//! Safetensors models: the tensor table in the file's header, and the
//! parts of the HuggingFace `config.json` that fix the model's shape and
//! weight format.
use vstd::prelude::*;
use vstd::utf8::*;

use crate::gguf::{string_is, utf8_string};
use crate::json::{get_field, json_document, json_field, parse_json, JsonValue};
use crate::quantization::QuantType;
use crate::util::{le_u64_at, read_u64_le};
use crate::weight_type::WeightFormat;

verus! {

// ---------------------------------------------------------------------------
// config.json
// ---------------------------------------------------------------------------

/// Why a model configuration was refused.
#[derive(Debug, Clone, Copy, PartialEq, Eq, Structural)]
pub enum StConfigError {
    /// The text is not JSON.
    NotJson,
    /// A dimension is missing or not an unsigned integer.
    MissingDimension,
}

/// The integer parameters of a model configuration (each taken as the low
/// 32 bits of the stored number).
#[derive(Debug, Clone, Copy, PartialEq, Eq, Structural)]
pub struct StConfig {
    pub dim: u32,
    pub hidden_dim: u32,
    pub n_heads: u32,
    pub n_kv_heads: u32,
    pub head_size: u32,
    pub n_layers: u32,
    pub vocab_size: u32,
    pub max_seq_len: u32,
}

/// The unsigned integer stored under `key`.
pub open spec fn u64_field(v: JsonValue, key: Seq<char>) -> Option<u64> {
    match json_field(v, key) {
        Some(JsonValue::Number(Some(n))) => Some(n),
        _ => None,
    }
}

/// The integer parameters of a configuration: `hidden_size`,
/// `intermediate_size`, `num_attention_heads`, `num_key_value_heads`,
/// `head_dim`, `num_hidden_layers`, `vocab_size`, `max_position_embeddings`.
pub open spec fn spec_st_config(v: JsonValue) -> Result<StConfig, StConfigError> {
    match (
        u64_field(v, "hidden_size"@),
        u64_field(v, "intermediate_size"@),
        u64_field(v, "num_attention_heads"@),
        u64_field(v, "num_key_value_heads"@),
        u64_field(v, "head_dim"@),
        u64_field(v, "num_hidden_layers"@),
        u64_field(v, "vocab_size"@),
        u64_field(v, "max_position_embeddings"@),
    ) {
        (Some(a), Some(b), Some(c), Some(d), Some(e), Some(f), Some(g), Some(h)) => Ok(
            StConfig {
                dim: a as u32,
                hidden_dim: b as u32,
                n_heads: c as u32,
                n_kv_heads: d as u32,
                head_size: e as u32,
                n_layers: f as u32,
                vocab_size: g as u32,
                max_seq_len: h as u32,
            },
        ),
        _ => Err(StConfigError::MissingDimension),
    }
}

/// The unsigned integer stored under `key`.
pub fn get_u64_field(v: &JsonValue, key: &str) -> (r: Option<u64>)
    ensures
        r == u64_field(*v, key@),
{
    match get_field(v, key) {
        Some(JsonValue::Number(Some(n))) => Some(*n),
        _ => None,
    }
}

/// The integer parameters of a parsed configuration (see
/// [`spec_st_config`]).
pub fn st_config_of(v: &JsonValue) -> (r: Result<StConfig, StConfigError>)
    ensures
        r == spec_st_config(*v),
{
    let a = get_u64_field(v, "hidden_size");
    let b = get_u64_field(v, "intermediate_size");
    let c = get_u64_field(v, "num_attention_heads");
    let d = get_u64_field(v, "num_key_value_heads");
    let e = get_u64_field(v, "head_dim");
    let f = get_u64_field(v, "num_hidden_layers");
    let g = get_u64_field(v, "vocab_size");
    let h = get_u64_field(v, "max_position_embeddings");
    match (a, b, c, d, e, f, g, h) {
        (Some(a), Some(b), Some(c), Some(d), Some(e), Some(f), Some(g), Some(h)) => Ok(
            StConfig {
                dim: a as u32,
                hidden_dim: b as u32,
                n_heads: c as u32,
                n_kv_heads: d as u32,
                head_size: e as u32,
                n_layers: f as u32,
                vocab_size: g as u32,
                max_seq_len: h as u32,
            },
        ),
        _ => Err(StConfigError::MissingDimension),
    }
}

/// The integer parameters of the text of a `config.json` file: `NotJson`
/// when `serde_json` cannot parse it, else as [`spec_st_config`] says.
pub fn parse_st_config(text: &str) -> (r: Result<StConfig, StConfigError>)
    ensures
        match json_document(text@) {
            None => r == Err::<StConfig, StConfigError>(StConfigError::NotJson),
            Some(v) => r == spec_st_config(v),
        },
{
    match parse_json(text) {
        None => Err(StConfigError::NotJson),
        Some(v) => st_config_of(&v),
    }
}

/// The group size of the `quantization` section (32 when it gives none),
/// as the low 32 bits.
pub open spec fn group_size_of(q: Option<JsonValue>) -> u32 {
    match q {
        Some(q) => match u64_field(q, "group_size"@) {
            Some(n) => n as u32,
            None => 32,
        },
        None => 32,
    }
}

/// The quantization, weight format and group size of a safetensors model:
/// an override decides the format (F16 with group size 32); otherwise a
/// model without a `quantization` section has F16 weights, one whose
/// section says `quant_type` "Q4_0" is Q4_0, and any other is Q8_0.
pub open spec fn spec_st_weight_format(config: JsonValue, fmt_override: Option<WeightFormat>) -> (
    QuantType,
    WeightFormat,
    u32,
) {
    let q = json_field(config, "quantization"@);
    match fmt_override {
        Some(WeightFormat::Q8_0) => (QuantType::Q8_0, WeightFormat::Q8_0, group_size_of(q)),
        Some(WeightFormat::Q4_0) => (QuantType::Q4_0, WeightFormat::Q4_0, group_size_of(q)),
        Some(WeightFormat::F16) => (QuantType::F16, WeightFormat::F16, 32),
        None => match q {
            None => (QuantType::F16, WeightFormat::F16, 32),
            Some(qo) => match json_field(qo, "quant_type"@) {
                Some(JsonValue::Str(s)) if s@ == "Q4_0"@ => (QuantType::Q4_0, WeightFormat::Q4_0, group_size_of(q)),
                _ => (QuantType::Q8_0, WeightFormat::Q8_0, group_size_of(q)),
            },
        },
    }
}

fn group_size_from(q: Option<&JsonValue>) -> (r: u32)
    ensures
        r == group_size_of(
            match q {
                Some(x) => Some(*x),
                None => None,
            },
        ),
{
    match q {
        Some(x) => match get_u64_field(x, "group_size") {
            Some(n) => n as u32,
            None => 32,
        },
        None => 32,
    }
}

/// The quantization, weight format and group size of a safetensors model
/// (see [`spec_st_weight_format`]).
pub fn st_weight_format(config: &JsonValue, fmt_override: Option<WeightFormat>) -> (r: (QuantType, WeightFormat, u32))
    ensures
        r == spec_st_weight_format(*config, fmt_override),
{
    let q = get_field(config, "quantization");
    match fmt_override {
        Some(WeightFormat::Q8_0) => (QuantType::Q8_0, WeightFormat::Q8_0, group_size_from(q)),
        Some(WeightFormat::Q4_0) => (QuantType::Q4_0, WeightFormat::Q4_0, group_size_from(q)),
        Some(WeightFormat::F16) => (QuantType::F16, WeightFormat::F16, 32),
        None => match q {
            None => (QuantType::F16, WeightFormat::F16, 32),
            Some(qo) => {
                let is_q4 = match get_field(qo, "quant_type") {
                    Some(JsonValue::Str(s)) => string_is(s, "Q4_0"),
                    _ => false,
                };
                if is_q4 {
                    (QuantType::Q4_0, WeightFormat::Q4_0, group_size_from(q))
                } else {
                    (QuantType::Q8_0, WeightFormat::Q8_0, group_size_from(q))
                }
            },
        },
    }
}

/// The weight format of the sequential safetensors model, which only runs
/// Q8_0: the group size comes from the `quantization` section (32 when it
/// gives none), except that an override to another format, or a model
/// without a `quantization` section, falls back to group size 32.
pub open spec fn spec_st_seq_group_size(config: JsonValue, fmt_override: Option<WeightFormat>) -> u32 {
    let q = json_field(config, "quantization"@);
    match fmt_override {
        Some(WeightFormat::Q8_0) => group_size_of(q),
        Some(_) => 32,
        None => group_size_of(q),
    }
}

/// The Q8_0 group size of the sequential safetensors model (see
/// [`spec_st_seq_group_size`]).
pub fn st_seq_group_size(config: &JsonValue, fmt_override: Option<WeightFormat>) -> (r: u32)
    ensures
        r == spec_st_seq_group_size(*config, fmt_override),
{
    let q = get_field(config, "quantization");
    match fmt_override {
        Some(WeightFormat::Q8_0) => group_size_from(q),
        Some(_) => 32,
        None => group_size_from(q),
    }
}

/// The quantization, weight format and group size a `config.json` text
/// gives (see [`spec_st_weight_format`]); `NotJson` when it is not JSON.
pub fn st_config_weight_format(text: &str, fmt_override: Option<WeightFormat>) -> (r: Result<
    (QuantType, WeightFormat, u32),
    StConfigError,
>)
    ensures
        match json_document(text@) {
            None => r == Err::<(QuantType, WeightFormat, u32), StConfigError>(StConfigError::NotJson),
            Some(v) => r == Ok::<(QuantType, WeightFormat, u32), StConfigError>(spec_st_weight_format(v, fmt_override)),
        },
{
    match parse_json(text) {
        None => Err(StConfigError::NotJson),
        Some(v) => Ok(st_weight_format(&v, fmt_override)),
    }
}

/// For the sequential model, what a `config.json` text gives: the Q8_0
/// group size (see [`spec_st_seq_group_size`]) and whether the config has a
/// `quantization` section at all; `NotJson` when it is not JSON.
pub fn st_config_seq_format(text: &str, fmt_override: Option<WeightFormat>) -> (r: Result<(u32, bool), StConfigError>)
    ensures
        match json_document(text@) {
            None => r == Err::<(u32, bool), StConfigError>(StConfigError::NotJson),
            Some(v) => r == Ok::<(u32, bool), StConfigError>(
                (spec_st_seq_group_size(v, fmt_override), json_field(v, "quantization"@) is Some),
            ),
        },
{
    match parse_json(text) {
        None => Err(StConfigError::NotJson),
        Some(v) => {
            let quantized = get_field(&v, "quantization").is_some();
            Ok((st_seq_group_size(&v, fmt_override), quantized))
        },
    }
}

// ---------------------------------------------------------------------------
// The tensor table
// ---------------------------------------------------------------------------

/// Why a safetensors header was refused.
#[derive(Debug, Clone, Copy, PartialEq, Eq, Structural)]
pub enum StHeaderError {
    /// The file ends inside the length field or the header.
    Truncated,
    /// The header is not UTF-8.
    InvalidUtf8,
    /// The header is not JSON.
    NotJson,
    /// A tensor entry lacks a string `dtype`, an array `shape` of unsigned
    /// integers, or an array `data_offsets` starting with one.
    BadEntry,
    /// A tensor's offset does not fit a `usize`.
    OffsetOverflow,
}

/// One tensor of a safetensors file: its name, element type, shape, and
/// the file offset of its first byte.
#[derive(Debug, Clone)]
pub struct StTensorInfo {
    pub name: String,
    pub dtype: String,
    pub shape: Vec<usize>,
    pub offset: usize,
}

/// What a tensor entry says, by views.
pub struct StTensorModel {
    pub name: Seq<char>,
    pub dtype: Seq<char>,
    pub shape: Seq<usize>,
    pub offset: usize,
}

/// The model of a tensor entry.
pub open spec fn st_tensor_model(t: StTensorInfo) -> StTensorModel {
    StTensorModel { name: t.name@, dtype: t.dtype@, shape: t.shape@, offset: t.offset }
}

/// The unsigned integers of a shape array.
pub open spec fn spec_shape(a: Seq<JsonValue>) -> Option<Seq<usize>>
    decreases a.len(),
{
    if a.len() == 0 {
        Some(Seq::empty())
    } else {
        match (spec_shape(a.drop_last()), a.last()) {
            (Some(p), JsonValue::Number(Some(n))) => if n <= usize::MAX {
                Some(p.push(n as usize))
            } else {
                None
            },
            _ => None,
        }
    }
}

/// A tensor entry named `name` of a header whose data starts at
/// `data_start`: its `dtype` string, its `shape`, and the first of its
/// `data_offsets` added to `data_start`.
pub open spec fn spec_tensor_entry(name: Seq<char>, info: JsonValue, data_start: nat) -> Result<
    StTensorModel,
    StHeaderError,
> {
    match (json_field(info, "dtype"@), json_field(info, "shape"@), json_field(info, "data_offsets"@)) {
        (Some(JsonValue::Str(dt)), Some(JsonValue::Array(sh)), Some(JsonValue::Array(offs))) => match spec_shape(
            sh@,
        ) {
            Some(shape) => if offs@.len() > 0 {
                match offs@[0] {
                    JsonValue::Number(Some(start)) => if data_start + start <= usize::MAX {
                        Ok(
                            StTensorModel {
                                name,
                                dtype: dt@,
                                shape,
                                offset: (data_start + start) as usize,
                            },
                        )
                    } else {
                        Err(StHeaderError::OffsetOverflow)
                    },
                    _ => Err(StHeaderError::BadEntry),
                }
            } else {
                Err(StHeaderError::BadEntry)
            },
            None => Err(StHeaderError::BadEntry),
        },
        _ => Err(StHeaderError::BadEntry),
    }
}

/// The tensor entries of a header object, skipping `__metadata__`.
pub open spec fn spec_tensor_entries(e: Seq<(String, JsonValue)>, data_start: nat) -> Result<
    Seq<StTensorModel>,
    StHeaderError,
>
    decreases e.len(),
{
    if e.len() == 0 {
        Ok(Seq::empty())
    } else {
        match spec_tensor_entries(e.drop_last(), data_start) {
            Err(x) => Err(x),
            Ok(p) => if e.last().0@ == "__metadata__"@ {
                Ok(p)
            } else {
                match spec_tensor_entry(e.last().0@, e.last().1, data_start) {
                    Err(x) => Err(x),
                    Ok(t) => Ok(p.push(t)),
                }
            },
        }
    }
}

/// The byte count of the header and its text, when the file holds them.
pub open spec fn spec_st_header_text(d: Seq<u8>) -> Result<(nat, Seq<char>), StHeaderError> {
    if d.len() < 8 {
        Err(StHeaderError::Truncated)
    } else {
        let n = le_u64_at(d, 0);
        if 8 + n > d.len() {
            Err(StHeaderError::Truncated)
        } else if valid_utf8(d.subrange(8, 8 + n)) {
            Ok((n as nat, decode_utf8(d.subrange(8, 8 + n))))
        } else {
            Err(StHeaderError::InvalidUtf8)
        }
    }
}

/// The tensor table of a safetensors file: a little-endian `u64` byte count,
/// then that many bytes of JSON, an object of tensor entries (anything else
/// lists no tensors); tensor data starts after the header.
pub open spec fn spec_st_tensors(d: Seq<u8>) -> Result<Seq<StTensorModel>, StHeaderError> {
    match spec_st_header_text(d) {
        Err(x) => Err(x),
        Ok((n, text)) => match json_document(text) {
            None => Err(StHeaderError::NotJson),
            Some(JsonValue::Object(e)) => spec_tensor_entries(e@, 8 + n),
            Some(_) => Ok(Seq::empty()),
        },
    }
}

fn shape_of(a: &Vec<JsonValue>) -> (r: Option<Vec<usize>>)
    ensures
        match r {
            Some(v) => spec_shape(a@) == Some(v@),
            None => spec_shape(a@) is None,
        },
{
    let mut out: Vec<usize> = Vec::new();
    let mut i: usize = 0;
    assert(a@.subrange(0, 0) =~= Seq::<JsonValue>::empty());
    while i < a.len()
        invariant
            i <= a@.len(),
            spec_shape(a@.subrange(0, i as int)) == Some(out@),
        decreases a@.len() - i,
    {
        assert(a@.subrange(0, i + 1).drop_last() =~= a@.subrange(0, i as int));
        assert(a@.subrange(0, i + 1).last() == a@[i as int]);
        match &a[i] {
            JsonValue::Number(Some(n)) => {
                if *n > usize::MAX as u64 {
                    proof {
                        lemma_shape_none_extends(a@, i + 1);
                    }
                    return None;
                }
                out.push(*n as usize);
            },
            _ => {
                proof {
                    lemma_shape_none_extends(a@, i + 1);
                }
                return None;
            },
        }
        i = i + 1;
    }
    assert(a@.subrange(0, i as int) =~= a@);
    Some(out)
}

proof fn lemma_shape_none_extends(a: Seq<JsonValue>, k: int)
    requires
        0 <= k <= a.len(),
        spec_shape(a.subrange(0, k)) is None,
    ensures
        spec_shape(a) is None,
    decreases a.len() - k,
{
    if k < a.len() {
        assert(a.subrange(0, k + 1).drop_last() =~= a.subrange(0, k));
        lemma_shape_none_extends(a, k + 1);
    } else {
        assert(a.subrange(0, k) =~= a);
    }
}

fn tensor_entry(name: &String, info: &JsonValue, data_start: usize) -> (r: Result<StTensorInfo, StHeaderError>)
    ensures
        match r {
            Ok(t) => spec_tensor_entry(name@, *info, data_start as nat) matches Ok(m) && st_tensor_model(t) == m,
            Err(x) => spec_tensor_entry(name@, *info, data_start as nat) == Err::<StTensorModel, StHeaderError>(x),
        },
{
    let dtype = match get_field(info, "dtype") {
        Some(JsonValue::Str(s)) => s,
        _ => {
            return Err(StHeaderError::BadEntry);
        },
    };
    let sh = match get_field(info, "shape") {
        Some(JsonValue::Array(a)) => a,
        _ => {
            return Err(StHeaderError::BadEntry);
        },
    };
    let offs = match get_field(info, "data_offsets") {
        Some(JsonValue::Array(a)) => a,
        _ => {
            return Err(StHeaderError::BadEntry);
        },
    };
    let shape = match shape_of(sh) {
        Some(s) => s,
        None => {
            return Err(StHeaderError::BadEntry);
        },
    };
    if offs.len() == 0 {
        return Err(StHeaderError::BadEntry);
    }
    let start = match &offs[0] {
        JsonValue::Number(Some(n)) => *n,
        _ => {
            return Err(StHeaderError::BadEntry);
        },
    };
    if start > (usize::MAX - data_start) as u64 {
        return Err(StHeaderError::OffsetOverflow);
    }
    Ok(StTensorInfo { name: name.clone(), dtype: dtype.clone(), shape, offset: data_start + start as usize })
}

proof fn lemma_entries_err_extends(e: Seq<(String, JsonValue)>, data_start: nat, k: int)
    requires
        0 <= k <= e.len(),
        spec_tensor_entries(e.subrange(0, k), data_start) is Err,
    ensures
        spec_tensor_entries(e, data_start) == spec_tensor_entries(e.subrange(0, k), data_start),
    decreases e.len() - k,
{
    if k < e.len() {
        assert(e.subrange(0, k + 1).drop_last() =~= e.subrange(0, k));
        lemma_entries_err_extends(e, data_start, k + 1);
    } else {
        assert(e.subrange(0, k) =~= e);
    }
}

/// The models of a list of tensor entries.
pub open spec fn st_tensor_models(v: Seq<StTensorInfo>) -> Seq<StTensorModel> {
    v.map_values(|t: StTensorInfo| st_tensor_model(t))
}

fn tensor_entries(e: &Vec<(String, JsonValue)>, data_start: usize) -> (r: Result<Vec<StTensorInfo>, StHeaderError>)
    ensures
        match r {
            Ok(v) => spec_tensor_entries(e@, data_start as nat) == Ok::<Seq<StTensorModel>, StHeaderError>(
                st_tensor_models(v@),
            ),
            Err(x) => spec_tensor_entries(e@, data_start as nat) == Err::<Seq<StTensorModel>, StHeaderError>(x),
        },
{
    let mut out: Vec<StTensorInfo> = Vec::new();
    let mut i: usize = 0;
    assert(e@.subrange(0, 0) =~= Seq::<(String, JsonValue)>::empty());
    assert(st_tensor_models(out@) =~= Seq::<StTensorModel>::empty());
    while i < e.len()
        invariant
            i <= e@.len(),
            spec_tensor_entries(e@.subrange(0, i as int), data_start as nat) == Ok::<
                Seq<StTensorModel>,
                StHeaderError,
            >(st_tensor_models(out@)),
        decreases e@.len() - i,
    {
        assert(e@.subrange(0, i + 1).drop_last() =~= e@.subrange(0, i as int));
        assert(e@.subrange(0, i + 1).last() == e@[i as int]);
        let ghost before = out@;
        if !string_is(&e[i].0, "__metadata__") {
            match tensor_entry(&e[i].0, &e[i].1, data_start) {
                Ok(t) => {
                    out.push(t);
                    assert(st_tensor_models(out@) =~= st_tensor_models(before).push(st_tensor_model(t)));
                },
                Err(x) => {
                    proof {
                        lemma_entries_err_extends(e@, data_start as nat, i + 1);
                    }
                    return Err(x);
                },
            }
        }
        i = i + 1;
    }
    assert(e@.subrange(0, i as int) =~= e@);
    Ok(out)
}

/// Reads the tensor table of a safetensors file (see [`spec_st_tensors`]).
pub fn read_st_tensors(d: &[u8]) -> (r: Result<Vec<StTensorInfo>, StHeaderError>)
    ensures
        match r {
            Ok(v) => spec_st_tensors(d@) == Ok::<Seq<StTensorModel>, StHeaderError>(st_tensor_models(v@)),
            Err(x) => spec_st_tensors(d@) == Err::<Seq<StTensorModel>, StHeaderError>(x),
        },
{
    if d.len() < 8 {
        return Err(StHeaderError::Truncated);
    }
    let n = read_u64_le(d, 0);
    if n > (d.len() - 8) as u64 {
        return Err(StHeaderError::Truncated);
    }
    let end = 8 + n as usize;
    let text = match utf8_string(&d[8..end]) {
        Some(t) => t,
        None => {
            return Err(StHeaderError::InvalidUtf8);
        },
    };
    match parse_json(text.as_str()) {
        None => Err(StHeaderError::NotJson),
        Some(JsonValue::Object(e)) => tensor_entries(&e, end),
        Some(_) => {
            assert(st_tensor_models(Seq::<StTensorInfo>::empty()) =~= Seq::<StTensorModel>::empty());
            Ok(Vec::new())
        },
    }
}

} // verus!
