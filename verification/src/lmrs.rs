//! The lm.rs model file: its header and where each weight tensor lies.
use vstd::prelude::*;

use crate::base_transformer::{model_family_from_code, spec_model_family_from_code, ModelFamily};
use crate::quantization::{quant_type_from_code, spec_quant_type_from_code, QuantType};
use crate::util::{le_u32_at, read_u32_le};

verus! {

/// The header of an lm.rs model: dimensions as stored, the two float
/// parameters as bits, and the decoded codes.
#[derive(Debug, Clone, Copy, PartialEq, Eq, Structural)]
pub struct LmrsHeader {
    pub version: u32,
    pub dim: u32,
    pub hidden_dim: u32,
    pub n_layers: u32,
    pub n_heads: u32,
    pub head_size: u32,
    pub n_kv_heads: u32,
    pub vocab_size: u32,
    pub seq_len: u32,
    pub rms_norm_eps_bits: u32,
    pub rope_theta_bits: u32,
    pub q_type: QuantType,
    pub model_type: ModelFamily,
    pub group_size: u32,
    pub multimodal: bool,
}

/// Why an lm.rs model file was refused.
#[derive(Debug, Clone, Copy, PartialEq, Eq, Structural)]
pub enum LmrsError {
    /// The quantization code is not one of 0..=3.
    BadQuantType(u8),
    /// The model family code is not 0 or 1.
    BadModelFamily(u8),
    /// The multimodal flag is not 0 or 1.
    BadFlag(u8),
    /// The model dimension, hidden dimension, head count or layer count is 0.
    ZeroDimension,
    /// The sequence length or the vocabulary size is 0.
    ZeroLength,
    /// The quantization group size is 0.
    ZeroGroupSize,
}

/// The header of an lm.rs file: the magic `lmrs`, a `u32` version, then at
/// offset 8 the packed configuration: eight `u32` dimensions (model,
/// hidden, layers, heads, head size, key/value heads, vocabulary, sequence
/// length), the bits of two `f32` (norm epsilon, rope theta), one byte each
/// for the quantization and family codes, a `u32` group size and a one-byte
/// multimodal flag, 47 bytes in all.
pub open spec fn spec_lmrs_header(d: Seq<u8>) -> Result<LmrsHeader, LmrsError>
    recommends
        lmrs_header_present(d),
{
    match spec_quant_type_from_code(d[48]) {
        None => Err(LmrsError::BadQuantType(d[48])),
        Some(q_type) => match spec_model_family_from_code(d[49]) {
            None => Err(LmrsError::BadModelFamily(d[49])),
            Some(model_type) => if d[54] > 1 {
                Err(LmrsError::BadFlag(d[54]))
            } else {
                let h = LmrsHeader {
                    version: le_u32_at(d, 4) as u32,
                    dim: le_u32_at(d, 8) as u32,
                    hidden_dim: le_u32_at(d, 12) as u32,
                    n_layers: le_u32_at(d, 16) as u32,
                    n_heads: le_u32_at(d, 20) as u32,
                    head_size: le_u32_at(d, 24) as u32,
                    n_kv_heads: le_u32_at(d, 28) as u32,
                    vocab_size: le_u32_at(d, 32) as u32,
                    seq_len: le_u32_at(d, 36) as u32,
                    rms_norm_eps_bits: le_u32_at(d, 40) as u32,
                    rope_theta_bits: le_u32_at(d, 44) as u32,
                    q_type,
                    model_type,
                    group_size: le_u32_at(d, 50) as u32,
                    multimodal: d[54] == 1,
                };
                if h.dim == 0 || h.hidden_dim == 0 || h.n_heads == 0 || h.n_layers == 0 {
                    Err(LmrsError::ZeroDimension)
                } else if h.seq_len == 0 || h.vocab_size == 0 {
                    Err(LmrsError::ZeroLength)
                } else if h.group_size == 0 {
                    Err(LmrsError::ZeroGroupSize)
                } else {
                    Ok(h)
                }
            },
        },
    }
}

/// The little-endian `u32` in the four bytes from `at`.
pub open spec fn word_at(d: Seq<u8>, at: int) -> int {
    d[at] + 256 * d[at + 1] + 65536 * d[at + 2] + 16777216 * d[at + 3]
}

/// The header lays out the packed configuration after the 8-byte magic and
/// version: the version at byte 4, the eight dimensions at bytes 8, 12, ...,
/// 36 (model, hidden, layers, heads, head size, key/value heads, vocabulary,
/// sequence length), the RMS epsilon's bits at 40, the RoPE base frequency's
/// bits at 44, the quantization and family codes at 48 and 49, the group
/// size at 50 and the multimodal flag at 54. Each accepted header carries
/// exactly those values, all of them nonzero where a zero would be refused.
pub proof fn lemma_lmrs_header_layout(d: Seq<u8>)
    requires
        lmrs_header_present(d),
    ensures
        spec_lmrs_header(d) matches Ok(h) ==> {
            &&& h.version == word_at(d, 4)
            &&& h.dim == word_at(d, 8) && h.hidden_dim == word_at(d, 12)
            &&& h.n_layers == word_at(d, 16) && h.n_heads == word_at(d, 20)
            &&& h.head_size == word_at(d, 24) && h.n_kv_heads == word_at(d, 28)
            &&& h.vocab_size == word_at(d, 32) && h.seq_len == word_at(d, 36)
            &&& h.rms_norm_eps_bits == word_at(d, 40)
            &&& h.rope_theta_bits == word_at(d, 44)
            &&& spec_quant_type_from_code(d[48]) == Some(h.q_type)
            &&& spec_model_family_from_code(d[49]) == Some(h.model_type)
            &&& h.group_size == word_at(d, 50)
            &&& h.multimodal == (d[54] == 1) && d[54] <= 1
            &&& h.dim > 0 && h.hidden_dim > 0 && h.n_heads > 0 && h.n_layers > 0
            &&& h.seq_len > 0 && h.vocab_size > 0 && h.group_size > 0
        },
{
    if let Ok(h) = spec_lmrs_header(d) {
        assert forall|at: int| 0 <= at && at + 4 <= d.len() implies le_u32_at(d, at) == word_at(d, at)
            && 0 <= word_at(d, at) < 0x1_0000_0000 by {
            assert(0 <= d[at] < 256 && 0 <= d[at + 1] < 256 && 0 <= d[at + 2] < 256 && 0 <= d[at + 3] < 256);
        }
    }
}

/// The file starts with the magic `lmrs` and holds the whole header (55
/// bytes); a file that does not is not an lm.rs model.
pub open spec fn lmrs_header_present(d: Seq<u8>) -> bool {
    d.len() >= 55 && d[0] == 0x6c && d[1] == 0x6d && d[2] == 0x72 && d[3] == 0x73
}

/// Whether the file starts with the `lmrs` magic and holds the whole header
/// (see [`lmrs_header_present`]); a loader checks it before
/// [`parse_lmrs_header`].
pub fn has_lmrs_header(d: &[u8]) -> (r: bool)
    ensures
        r == lmrs_header_present(d@),
{
    d.len() >= 55 && d[0] == 0x6c && d[1] == 0x6d && d[2] == 0x72 && d[3] == 0x73
}

/// Reads and checks the header of an lm.rs file (see [`spec_lmrs_header`]).
pub fn parse_lmrs_header(d: &[u8]) -> (r: Result<LmrsHeader, LmrsError>)
    requires
        lmrs_header_present(d@),
    ensures
        r == spec_lmrs_header(d@),
{
    let q_type = match quant_type_from_code(d[48]) {
        Some(q) => q,
        None => {
            return Err(LmrsError::BadQuantType(d[48]));
        },
    };
    let model_type = match model_family_from_code(d[49]) {
        Some(f) => f,
        None => {
            return Err(LmrsError::BadModelFamily(d[49]));
        },
    };
    if d[54] > 1 {
        return Err(LmrsError::BadFlag(d[54]));
    }
    let h = LmrsHeader {
        version: read_u32_le(d, 4),
        dim: read_u32_le(d, 8),
        hidden_dim: read_u32_le(d, 12),
        n_layers: read_u32_le(d, 16),
        n_heads: read_u32_le(d, 20),
        head_size: read_u32_le(d, 24),
        n_kv_heads: read_u32_le(d, 28),
        vocab_size: read_u32_le(d, 32),
        seq_len: read_u32_le(d, 36),
        rms_norm_eps_bits: read_u32_le(d, 40),
        rope_theta_bits: read_u32_le(d, 44),
        q_type,
        model_type,
        group_size: read_u32_le(d, 50),
        multimodal: d[54] == 1,
    };
    if h.dim == 0 || h.hidden_dim == 0 || h.n_heads == 0 || h.n_layers == 0 {
        Err(LmrsError::ZeroDimension)
    } else if h.seq_len == 0 || h.vocab_size == 0 {
        Err(LmrsError::ZeroLength)
    } else if h.group_size == 0 {
        Err(LmrsError::ZeroGroupSize)
    } else {
        Ok(h)
    }
}

/// The context length used: the model's, capped at `max_ctx_len`.
pub fn capped_ctx_len(seq_len: u32, max_ctx_len: u32) -> (r: u32)
    ensures
        r == if seq_len < max_ctx_len {
            seq_len
        } else {
            max_ctx_len
        },
{
    if seq_len < max_ctx_len {
        seq_len
    } else {
        max_ctx_len
    }
}

/// The model's context length is cut down by an explicit cap (one below
/// `u32::MAX`), which is worth a warning.
pub fn ctx_len_capped(seq_len: u32, max_ctx_len: u32) -> (r: bool)
    ensures
        r == (max_ctx_len < u32::MAX && seq_len > max_ctx_len),
{
    max_ctx_len < 0xFFFF_FFFF && seq_len > max_ctx_len
}

// ---------------------------------------------------------------------------
// Tensor layout
// ---------------------------------------------------------------------------

/// The bytes of a Q8 tensor of `n` values in an lm.rs file: the signed
/// values, then one `f32` scale per full group of `gs` values.
pub open spec fn lmrs_q8_size(n: nat, gs: nat) -> nat {
    n + 4 * (n / gs)
}

/// Where the weights of an lm.rs model lie: the first byte of each run of
/// tensors (one per layer for per-layer weights, each the same size), the
/// size of one tensor of each kind, and the end of the weights.
#[derive(Debug, Clone, Copy, PartialEq, Eq, Structural)]
pub struct LmrsLayout {
    /// Values per tensor: embedding, attention query/output, key/value, feed-forward.
    pub embedding_values: usize,
    pub q_values: usize,
    pub kv_values: usize,
    pub ffn_values: usize,
    /// Start of the token embedding.
    pub embedding: usize,
    /// Start of the per-layer attention norm vectors (`dim` `f32` each).
    pub rms_att: usize,
    pub wq: usize,
    pub wk: usize,
    pub wv: usize,
    pub wo: usize,
    /// Start of the per-layer feed-forward norm vectors.
    pub rms_post_att: usize,
    pub w1: usize,
    pub w2: usize,
    pub w3: usize,
    /// Start of the final norm vector.
    pub rms_final: usize,
    /// The first byte after the weights.
    pub end: usize,
}

/// The layout of an lm.rs model's weights, which start at byte 256: the
/// token embedding (`vocab * dim` values), the attention norms, the query,
/// key, value and output matrices (`heads * head_size * dim` values for
/// query and output, `kv_heads * head_size * dim` for key and value), the
/// feed-forward norms, the three feed-forward matrices (`hidden * dim`
/// values each), and the final norm; each kind one tensor per layer, in
/// layer order. `None` when the offsets do not fit a `usize`.
pub open spec fn spec_lmrs_layout(h: LmrsHeader) -> Option<LmrsLayout> {
    let gs = h.group_size as nat;
    let l = h.n_layers as nat;
    let dim = h.dim as nat;
    let emb = h.vocab_size as nat * dim;
    let q = h.n_heads as nat * h.head_size as nat * dim;
    let kv = h.n_kv_heads as nat * h.head_size as nat * dim;
    let ffn = h.hidden_dim as nat * dim;
    let embedding = 256nat;
    let rms_att = embedding + lmrs_q8_size(emb, gs);
    let wq = rms_att + l * (4 * dim);
    let wk = wq + l * lmrs_q8_size(q, gs);
    let wv = wk + l * lmrs_q8_size(kv, gs);
    let wo = wv + l * lmrs_q8_size(kv, gs);
    let rms_post_att = wo + l * lmrs_q8_size(q, gs);
    let w1 = rms_post_att + l * (4 * dim);
    let w2 = w1 + l * lmrs_q8_size(ffn, gs);
    let w3 = w2 + l * lmrs_q8_size(ffn, gs);
    let rms_final = w3 + l * lmrs_q8_size(ffn, gs);
    let end = rms_final + 4 * dim;
    if end > usize::MAX {
        None
    } else {
        Some(
            LmrsLayout {
                embedding_values: emb as usize,
                q_values: q as usize,
                kv_values: kv as usize,
                ffn_values: ffn as usize,
                embedding: embedding as usize,
                rms_att: rms_att as usize,
                wq: wq as usize,
                wk: wk as usize,
                wv: wv as usize,
                wo: wo as usize,
                rms_post_att: rms_post_att as usize,
                w1: w1 as usize,
                w2: w2 as usize,
                w3: w3 as usize,
                rms_final: rms_final as usize,
                end: end as usize,
            },
        )
    }
}

fn mul_checked(a: usize, b: usize) -> (r: Option<usize>)
    ensures
        match r {
            Some(v) => v == a * b,
            None => a * b > usize::MAX,
        },
{
    a.checked_mul(b)
}

fn add_checked(a: usize, b: usize) -> (r: Option<usize>)
    ensures
        match r {
            Some(v) => v == a + b,
            None => a + b > usize::MAX,
        },
{
    a.checked_add(b)
}

/// The bytes of a Q8 tensor of `n` values (see [`lmrs_q8_size`]).
fn q8_size_checked(n: usize, gs: usize) -> (r: Option<usize>)
    requires
        gs > 0,
    ensures
        match r {
            Some(v) => v == lmrs_q8_size(n as nat, gs as nat),
            None => lmrs_q8_size(n as nat, gs as nat) > usize::MAX,
        },
{
    let groups = n / gs;
    match mul_checked(4, groups) {
        Some(s) => add_checked(n, s),
        None => None,
    }
}

proof fn lemma_le_mul(x: nat, k: nat)
    requires
        k >= 1,
    ensures
        x <= k * x,
        x <= x * k,
{
    assert(x <= k * x && x <= x * k) by (nonlinear_arith)
        requires
            k >= 1,
    ;
}

/// Where the weights of an lm.rs model lie (see [`spec_lmrs_layout`]).
pub fn lmrs_layout(h: &LmrsHeader) -> (r: Option<LmrsLayout>)
    requires
        h.group_size > 0,
        h.dim > 0,
        h.n_layers > 0,
    ensures
        r == spec_lmrs_layout(*h),
{
    let ghost spec = spec_lmrs_layout(*h);
    let gs = h.group_size as usize;
    let l = h.n_layers as usize;
    let dim = h.dim as usize;
    let ghost emb_n = h.vocab_size as nat * dim as nat;
    let ghost q_n = h.n_heads as nat * h.head_size as nat * dim as nat;
    let ghost kv_n = h.n_kv_heads as nat * h.head_size as nat * dim as nat;
    let ghost ffn_n = h.hidden_dim as nat * dim as nat;
    let emb = match mul_checked(h.vocab_size as usize, dim) {
        Some(v) => v,
        None => {
            return None;
        },
    };
    let hq = match mul_checked(h.n_heads as usize, h.head_size as usize) {
        Some(v) => v,
        None => {
            proof {
                let hq_n = h.n_heads as nat * h.head_size as nat;
                lemma_le_mul(hq_n, dim as nat);
                lemma_le_mul(lmrs_q8_size(hq_n * dim as nat, gs as nat), l as nat);
            }
            return None;
        },
    };
    let q = match mul_checked(hq, dim) {
        Some(v) => v,
        None => {
            proof {
                lemma_le_mul(lmrs_q8_size(q_n, gs as nat), l as nat);
            }
            return None;
        },
    };
    let hkv = match mul_checked(h.n_kv_heads as usize, h.head_size as usize) {
        Some(v) => v,
        None => {
            proof {
                let hkv_n = h.n_kv_heads as nat * h.head_size as nat;
                lemma_le_mul(hkv_n, dim as nat);
                lemma_le_mul(lmrs_q8_size(hkv_n * dim as nat, gs as nat), l as nat);
            }
            return None;
        },
    };
    let kv = match mul_checked(hkv, dim) {
        Some(v) => v,
        None => {
            proof {
                lemma_le_mul(lmrs_q8_size(kv_n, gs as nat), l as nat);
            }
            return None;
        },
    };
    let ffn = match mul_checked(h.hidden_dim as usize, dim) {
        Some(v) => v,
        None => {
            proof {
                lemma_le_mul(lmrs_q8_size(ffn_n, gs as nat), l as nat);
            }
            return None;
        },
    };
    assert(emb == emb_n && q == q_n && kv == kv_n && ffn == ffn_n);
    let emb_size = match q8_size_checked(emb, gs) {
        Some(v) => v,
        None => {
            return None;
        },
    };
    let q_size = match q8_size_checked(q, gs) {
        Some(v) => v,
        None => {
            proof {
                lemma_le_mul(lmrs_q8_size(q_n, gs as nat), l as nat);
            }
            return None;
        },
    };
    let kv_size = match q8_size_checked(kv, gs) {
        Some(v) => v,
        None => {
            proof {
                lemma_le_mul(lmrs_q8_size(kv_n, gs as nat), l as nat);
            }
            return None;
        },
    };
    let ffn_size = match q8_size_checked(ffn, gs) {
        Some(v) => v,
        None => {
            proof {
                lemma_le_mul(lmrs_q8_size(ffn_n, gs as nat), l as nat);
            }
            return None;
        },
    };
    let norm = match mul_checked(4, dim) {
        Some(v) => v,
        None => {
            proof {
                lemma_le_mul(4 * dim as nat, l as nat);
            }
            return None;
        },
    };
    let norms = match mul_checked(l, norm) {
        Some(v) => v,
        None => {
            return None;
        },
    };
    let qs = match mul_checked(l, q_size) {
        Some(v) => v,
        None => {
            return None;
        },
    };
    let kvs = match mul_checked(l, kv_size) {
        Some(v) => v,
        None => {
            return None;
        },
    };
    let ffns = match mul_checked(l, ffn_size) {
        Some(v) => v,
        None => {
            return None;
        },
    };
    let embedding: usize = 256;
    let rms_att = match add_checked(embedding, emb_size) {
        Some(v) => v,
        None => {
            return None;
        },
    };
    let wq = match add_checked(rms_att, norms) {
        Some(v) => v,
        None => {
            return None;
        },
    };
    let wk = match add_checked(wq, qs) {
        Some(v) => v,
        None => {
            return None;
        },
    };
    let wv = match add_checked(wk, kvs) {
        Some(v) => v,
        None => {
            return None;
        },
    };
    let wo = match add_checked(wv, kvs) {
        Some(v) => v,
        None => {
            return None;
        },
    };
    let rms_post_att = match add_checked(wo, qs) {
        Some(v) => v,
        None => {
            return None;
        },
    };
    let w1 = match add_checked(rms_post_att, norms) {
        Some(v) => v,
        None => {
            return None;
        },
    };
    let w2 = match add_checked(w1, ffns) {
        Some(v) => v,
        None => {
            return None;
        },
    };
    let w3 = match add_checked(w2, ffns) {
        Some(v) => v,
        None => {
            return None;
        },
    };
    let rms_final = match add_checked(w3, ffns) {
        Some(v) => v,
        None => {
            return None;
        },
    };
    let end = match add_checked(rms_final, norm) {
        Some(v) => v,
        None => {
            return None;
        },
    };
    Some(
        LmrsLayout {
            embedding_values: emb,
            q_values: q,
            kv_values: kv,
            ffn_values: ffn,
            embedding,
            rms_att,
            wq,
            wk,
            wv,
            wo,
            rms_post_att,
            w1,
            w2,
            w3,
            rms_final,
            end,
        },
    )
}

} // verus!
