//! GGUF model files: metadata values, the key/value section, tensor
//! descriptors and the model configuration that the LLaMA loader reads.
use vstd::prelude::*;
use vstd::utf8::*;

use crate::quantization::QuantType;
use crate::util::{le_u16_at, le_u32_at, le_u64_at, read_u16_le, read_u32_le, read_u64_le};
use crate::weight_type::WeightFormat;

verus! {

// ---------------------------------------------------------------------------
// Values
// ---------------------------------------------------------------------------

/// A metadata value as stored in a GGUF file. Floating-point values are kept
/// as their IEEE-754 bit patterns.
#[derive(Debug)]
pub enum GgufValue {
    Uint8(u8),
    Int8(i8),
    Uint16(u16),
    Int16(i16),
    Uint32(u32),
    Int32(i32),
    Float32Bits(u32),
    Bool(bool),
    String(String),
    Array(Vec<GgufValue>),
    Uint64(u64),
    Int64(i64),
    Float64Bits(u64),
}

/// Mathematical model of a [`GgufValue`].
pub enum GgufVal {
    Uint8(u8),
    Int8(i8),
    Uint16(u16),
    Int16(i16),
    Uint32(u32),
    Int32(i32),
    Float32Bits(u32),
    Bool(bool),
    String(Seq<char>),
    Array(Seq<GgufVal>),
    Uint64(u64),
    Int64(i64),
    Float64Bits(u64),
}

impl GgufValue {
    pub open spec fn model(self) -> GgufVal
        decreases self,
    {
        match self {
            GgufValue::Uint8(v) => GgufVal::Uint8(v),
            GgufValue::Int8(v) => GgufVal::Int8(v),
            GgufValue::Uint16(v) => GgufVal::Uint16(v),
            GgufValue::Int16(v) => GgufVal::Int16(v),
            GgufValue::Uint32(v) => GgufVal::Uint32(v),
            GgufValue::Int32(v) => GgufVal::Int32(v),
            GgufValue::Float32Bits(v) => GgufVal::Float32Bits(v),
            GgufValue::Bool(v) => GgufVal::Bool(v),
            GgufValue::String(s) => GgufVal::String(s@),
            GgufValue::Array(items) => GgufVal::Array(models(items@)),
            GgufValue::Uint64(v) => GgufVal::Uint64(v),
            GgufValue::Int64(v) => GgufVal::Int64(v),
            GgufValue::Float64Bits(v) => GgufVal::Float64Bits(v),
        }
    }
}

/// The models of a sequence of values.
pub open spec fn models(s: Seq<GgufValue>) -> Seq<GgufVal>
    decreases s,
{
    if s.len() == 0 {
        Seq::empty()
    } else {
        seq![s[0].model()] + models(s.drop_first())
    }
}

pub proof fn lemma_models_len(s: Seq<GgufValue>)
    ensures
        models(s).len() == s.len(),
        forall|i: int| 0 <= i < s.len() ==> #[trigger] models(s)[i] == s[i].model(),
    decreases s.len(),
{
    if s.len() > 0 {
        lemma_models_len(s.drop_first());
        assert forall|i: int| 0 <= i < s.len() implies #[trigger] models(s)[i] == s[i].model() by {
            if i > 0 {
                assert(models(s)[i] == models(s.drop_first())[i - 1]);
            }
        }
    }
}

pub proof fn lemma_models_push(s: Seq<GgufValue>, x: GgufValue)
    ensures
        models(s.push(x)) == models(s).push(x.model()),
{
    lemma_models_len(s);
    lemma_models_len(s.push(x));
    assert(models(s.push(x)) =~= models(s).push(x.model()));
}

/// Why a GGUF byte sequence could not be read.
#[derive(Debug, Clone, Copy, PartialEq, Eq, Structural)]
pub enum GgufError {
    /// A read reaches past the end of the data.
    Truncated,
    /// A string is not valid UTF-8.
    InvalidUtf8,
    /// A value type code outside 0..=12.
    UnknownValueType(u32),
    /// An offset no longer fits in `usize`.
    OffsetOverflow,
    /// The file does not start with the GGUF magic.
    BadMagic,
    /// A GGUF version other than 3.
    UnsupportedVersion(u32),
    /// The alignment of the tensor data is not a power of two.
    BadAlignment(u64),
    /// An element count or the tensor data start does not fit its integer type.
    SizeOverflow,
    /// `general.architecture` is not among the metadata keys.
    ArchitectureNotFound,
}

// ---------------------------------------------------------------------------
// Reading values
// ---------------------------------------------------------------------------

/// Turns a byte sequence into a `String` with `String::from_utf8`: `Some`
/// exactly when the bytes are valid UTF-8, holding the decoded characters.
#[verifier::external_body]
pub(crate) fn utf8_string(bytes: &[u8]) -> (r: Option<String>)
    ensures
        r is Some <==> valid_utf8(bytes@),
        r matches Some(s) ==> s@ == decode_utf8(bytes@),
{
    String::from_utf8(bytes.to_vec()).ok()
}

/// A length-prefixed string at `off`: a little-endian `u64` byte count, then
/// that many bytes of UTF-8. Gives the characters and the offset after them.
pub open spec fn spec_string(s: Seq<u8>, off: int) -> Result<(Seq<char>, int), GgufError> {
    if off + 8 > s.len() {
        Err(GgufError::Truncated)
    } else {
        let len = le_u64_at(s, off);
        if off + 8 + len > s.len() {
            Err(GgufError::Truncated)
        } else {
            let b = s.subrange(off + 8, off + 8 + len);
            if valid_utf8(b) {
                Ok((decode_utf8(b), off + 8 + len))
            } else {
                Err(GgufError::InvalidUtf8)
            }
        }
    }
}

/// Number of bytes a scalar value of type `t` occupies (0 for strings,
/// arrays and unknown types).
pub open spec fn scalar_width(t: u32) -> int {
    if t == 0 || t == 1 || t == 7 {
        1
    } else if t == 2 || t == 3 {
        2
    } else if t == 4 || t == 5 || t == 6 {
        4
    } else if t == 10 || t == 11 || t == 12 {
        8
    } else {
        0
    }
}

/// The scalar of type `t` (one of 0..=7, 10..=12 except 8) stored at `off`.
pub open spec fn spec_scalar(s: Seq<u8>, off: int, t: u32) -> GgufVal {
    if t == 0 {
        GgufVal::Uint8(s[off])
    } else if t == 1 {
        GgufVal::Int8(s[off] as i8)
    } else if t == 2 {
        GgufVal::Uint16(le_u16_at(s, off) as u16)
    } else if t == 3 {
        GgufVal::Int16((le_u16_at(s, off) as u16) as i16)
    } else if t == 4 {
        GgufVal::Uint32(le_u32_at(s, off) as u32)
    } else if t == 5 {
        GgufVal::Int32((le_u32_at(s, off) as u32) as i32)
    } else if t == 6 {
        GgufVal::Float32Bits(le_u32_at(s, off) as u32)
    } else if t == 7 {
        GgufVal::Bool(s[off] != 0)
    } else if t == 10 {
        GgufVal::Uint64(le_u64_at(s, off) as u64)
    } else if t == 11 {
        GgufVal::Int64((le_u64_at(s, off) as u64) as i64)
    } else {
        GgufVal::Float64Bits(le_u64_at(s, off) as u64)
    }
}

/// The value of type `t` stored at `off`, and the offset just after it.
/// Strings are as in [`spec_string`]; an array is a `u32` element type, a
/// `u64` element count, then the elements one after another.
pub open spec fn spec_value(s: Seq<u8>, off: int, t: u32) -> Result<(GgufVal, int), GgufError>
    decreases s.len() - off, 0int, 0nat,
{
    if t > 12 {
        Err(GgufError::UnknownValueType(t))
    } else if t == 8 {
        match spec_string(s, off) {
            Ok((str, o)) => Ok((GgufVal::String(str), o)),
            Err(e) => Err(e),
        }
    } else if t == 9 {
        if off < 0 || off + 12 > s.len() {
            Err(GgufError::Truncated)
        } else {
            let et = le_u32_at(s, off) as u32;
            let n = le_u64_at(s, off + 4) as nat;
            match spec_elems(s, off + 12, et, n) {
                Ok((items, o)) => Ok((GgufVal::Array(items), o)),
                Err(e) => Err(e),
            }
        }
    } else if off < 0 || off + scalar_width(t) > s.len() {
        Err(GgufError::Truncated)
    } else {
        Ok((spec_scalar(s, off, t), off + scalar_width(t)))
    }
}

/// `n` values of type `t` stored one after another from `off`.
pub open spec fn spec_elems(s: Seq<u8>, off: int, t: u32, n: nat) -> Result<
    (Seq<GgufVal>, int),
    GgufError,
>
    decreases s.len() - off, 1int, n,
{
    if n == 0 {
        Ok((Seq::empty(), off))
    } else {
        match spec_value(s, off, t) {
            Err(e) => Err(e),
            Ok((v, o)) => if o <= off || o > s.len() {
                Err(GgufError::Truncated)
            } else {
                match spec_elems(s, o, t, (n - 1) as nat) {
                    Ok((vs, o2)) => Ok((seq![v] + vs, o2)),
                    Err(e) => Err(e),
                }
            },
        }
    }
}

/// Prepends `prefix` to the values of an element-reading result.
pub open spec fn with_prefix(prefix: Seq<GgufVal>, r: Result<(Seq<GgufVal>, int), GgufError>) -> Result<
    (Seq<GgufVal>, int),
    GgufError,
> {
    match r {
        Ok((vs, o)) => Ok((prefix + vs, o)),
        Err(e) => Err(e),
    }
}

/// A successfully read value ends after its start and within the data.
pub proof fn lemma_value_advances(s: Seq<u8>, off: int, t: u32)
    requires
        0 <= off,
    ensures
        spec_value(s, off, t) matches Ok((_, o)) ==> off < o <= s.len(),
    decreases s.len() - off, 0int, 0nat,
{
    if t == 9 && off + 12 <= s.len() {
        let et = le_u32_at(s, off) as u32;
        let n = le_u64_at(s, off + 4) as nat;
        lemma_elems_advance(s, off + 12, et, n);
    }
}

/// Reading elements never moves backwards nor past the end of the data.
pub proof fn lemma_elems_advance(s: Seq<u8>, off: int, t: u32, n: nat)
    requires
        0 <= off <= s.len(),
    ensures
        spec_elems(s, off, t, n) matches Ok((vs, o)) ==> off <= o <= s.len() && vs.len() == n,
    decreases s.len() - off, 1int, n,
{
    if n > 0 {
        lemma_value_advances(s, off, t);
        if let Ok((v, o)) = spec_value(s, off, t) {
            if off < o <= s.len() {
                lemma_elems_advance(s, o, t, (n - 1) as nat);
            }
        }
    }
}

/// Maps an exec reading result to its model.
pub open spec fn value_result_model(r: Result<(GgufValue, usize), GgufError>) -> Result<
    (GgufVal, int),
    GgufError,
> {
    match r {
        Ok((v, o)) => Ok((v.model(), o as int)),
        Err(e) => Err(e),
    }
}

/// Reads the length-prefixed UTF-8 string at `off`.
pub fn read_gguf_string(s: &[u8], off: usize) -> (r: Result<(String, usize), GgufError>)
    ensures
        match r {
            Ok((str, o)) => spec_string(s@, off as int) == Ok::<(Seq<char>, int), GgufError>(
                (str@, o as int),
            ),
            Err(e) => spec_string(s@, off as int) == Err::<(Seq<char>, int), GgufError>(e),
        },
{
    if off > s.len() || s.len() - off < 8 {
        return Err(GgufError::Truncated);
    }
    let len = read_u64_le(s, off);
    let start = off + 8;
    if len > (s.len() - start) as u64 {
        return Err(GgufError::Truncated);
    }
    let end = start + len as usize;
    match utf8_string(&s[start..end]) {
        Some(str) => Ok((str, end)),
        None => Err(GgufError::InvalidUtf8),
    }
}

/// Reads the scalar of type `t` at `off`; `t` is one of the scalar types.
fn read_scalar(s: &[u8], off: usize, t: u32) -> (r: GgufValue)
    requires
        t <= 12,
        t != 8,
        t != 9,
        off + scalar_width(t) <= s.len(),
    ensures
        r.model() == spec_scalar(s@, off as int, t),
{
    if t == 0 {
        GgufValue::Uint8(s[off])
    } else if t == 1 {
        GgufValue::Int8(s[off] as i8)
    } else if t == 2 {
        GgufValue::Uint16(read_u16_le(s, off))
    } else if t == 3 {
        GgufValue::Int16(read_u16_le(s, off) as i16)
    } else if t == 4 {
        GgufValue::Uint32(read_u32_le(s, off))
    } else if t == 5 {
        GgufValue::Int32(read_u32_le(s, off) as i32)
    } else if t == 6 {
        GgufValue::Float32Bits(read_u32_le(s, off))
    } else if t == 7 {
        GgufValue::Bool(s[off] != 0)
    } else if t == 10 {
        GgufValue::Uint64(read_u64_le(s, off))
    } else if t == 11 {
        GgufValue::Int64(read_u64_le(s, off) as i64)
    } else {
        GgufValue::Float64Bits(read_u64_le(s, off))
    }
}

/// Width of a scalar value type (see [`scalar_width`]).
fn scalar_width_exec(t: u32) -> (r: usize)
    ensures
        r == scalar_width(t),
{
    if t == 0 || t == 1 || t == 7 {
        1
    } else if t == 2 || t == 3 {
        2
    } else if t == 4 || t == 5 || t == 6 {
        4
    } else if t == 10 || t == 11 || t == 12 {
        8
    } else {
        0
    }
}

/// Reads the value of type `t` stored at `off`, giving the value and the
/// offset just after it (see [`spec_value`]). Truncated data and a type
/// above 12 are reported as errors rather than panics.
pub fn read_gguf_value(s: &[u8], off: usize, t: u32) -> (r: Result<(GgufValue, usize), GgufError>)
    ensures
        value_result_model(r) == spec_value(s@, off as int, t),
    decreases s@.len() - off,
{
    if t > 12 {
        return Err(GgufError::UnknownValueType(t));
    }
    if t == 8 {
        return match read_gguf_string(s, off) {
            Ok((str, o)) => Ok((GgufValue::String(str), o)),
            Err(e) => Err(e),
        };
    }
    if t == 9 {
        if off > s.len() || s.len() - off < 12 {
            return Err(GgufError::Truncated);
        }
        let et = read_u32_le(s, off);
        let n = read_u64_le(s, off + 4);
        let mut items: Vec<GgufValue> = Vec::new();
        let mut cur: usize = off + 12;
        let mut k: u64 = 0;
        proof {
            lemma_models_len(items@);
            assert(models(items@) =~= Seq::<GgufVal>::empty());
        }
        while k < n
            invariant
                0 <= off,
                off + 12 <= cur <= s@.len(),
                k <= n,
                spec_value(s@, off as int, t) == match spec_elems(s@, off + 12, et, n as nat) {
                    Ok((items, o)) => Ok((GgufVal::Array(items), o)),
                    Err(e) => Err::<(GgufVal, int), GgufError>(e),
                },
                spec_elems(s@, off + 12, et, n as nat) == with_prefix(
                    models(items@),
                    spec_elems(s@, cur as int, et, (n - k) as nat),
                ),
            decreases n - k,
        {
            let ghost m = (n - k) as nat;
            proof {
                lemma_value_advances(s@, cur as int, et);
            }
            match read_gguf_value(s, cur, et) {
                Err(e) => {
                    return Err(e);
                },
                Ok((v, o)) => {
                    proof {
                        lemma_models_push(items@, v);
                        assert(models(items@) + (seq![v.model()] + Seq::<GgufVal>::empty())
                            =~= models(items@).push(v.model()) + Seq::<GgufVal>::empty());
                        if let Ok((vs, o2)) = spec_elems(s@, o as int, et, (m - 1) as nat) {
                            assert(models(items@) + (seq![v.model()] + vs) =~= models(items@).push(
                                v.model(),
                            ) + vs);
                        }
                    }
                    items.push(v);
                    cur = o;
                    k = k + 1;
                },
            }
        }
        proof {
            assert(models(items@) + Seq::<GgufVal>::empty() =~= models(items@));
        }
        return Ok((GgufValue::Array(items), cur));
    }
    let w = scalar_width_exec(t);
    if off > s.len() || s.len() - off < w {
        return Err(GgufError::Truncated);
    }
    Ok((read_scalar(s, off, t), off + w))
}

// ---------------------------------------------------------------------------
// Skipping values
// ---------------------------------------------------------------------------

/// Termination measure for skipping: the bytes left, plus one, while the
/// offset is within the data.
pub open spec fn skip_measure(s: Seq<u8>, off: int) -> int {
    if off <= s.len() {
        s.len() - off + 1
    } else {
        0
    }
}

/// The offset just after the value of type `t` at `off`, found without
/// reading the value: only the length fields of strings and arrays are read,
/// so the bytes of scalars and of string contents need not be present.
pub open spec fn spec_skip(s: Seq<u8>, off: int, t: u32) -> Result<int, GgufError>
    decreases skip_measure(s, off), 0int, 0nat,
{
    if t > 12 {
        Err(GgufError::UnknownValueType(t))
    } else if t == 8 {
        if off < 0 || off + 8 > s.len() {
            Err(GgufError::Truncated)
        } else if off + 8 + le_u64_at(s, off) > usize::MAX {
            Err(GgufError::OffsetOverflow)
        } else {
            Ok(off + 8 + le_u64_at(s, off))
        }
    } else if t == 9 {
        if off < 0 || off + 12 > s.len() {
            Err(GgufError::Truncated)
        } else {
            spec_skip_elems(s, off + 12, le_u32_at(s, off) as u32, le_u64_at(s, off + 4) as nat)
        }
    } else if off + scalar_width(t) > usize::MAX {
        Err(GgufError::OffsetOverflow)
    } else {
        Ok(off + scalar_width(t))
    }
}

/// The offset just after `n` values of type `t` stored from `off`.
pub open spec fn spec_skip_elems(s: Seq<u8>, off: int, t: u32, n: nat) -> Result<int, GgufError>
    decreases skip_measure(s, off), 1int, n,
{
    if n == 0 {
        Ok(off)
    } else {
        match spec_skip(s, off, t) {
            Err(e) => Err(e),
            Ok(o) => if o <= off {
                Err(GgufError::Truncated)
            } else {
                spec_skip_elems(s, o, t, (n - 1) as nat)
            },
        }
    }
}

/// A successful skip ends after its start.
pub proof fn lemma_skip_advances(s: Seq<u8>, off: int, t: u32)
    requires
        0 <= off,
    ensures
        spec_skip(s, off, t) matches Ok(o) ==> off < o,
    decreases skip_measure(s, off), 0int, 0nat,
{
    if t == 9 && off + 12 <= s.len() {
        lemma_skip_elems_advance(s, off + 12, le_u32_at(s, off) as u32, le_u64_at(s, off + 4) as nat);
    }
}

/// Skipping elements never moves backwards.
pub proof fn lemma_skip_elems_advance(s: Seq<u8>, off: int, t: u32, n: nat)
    requires
        0 <= off,
    ensures
        spec_skip_elems(s, off, t, n) matches Ok(o) ==> off <= o,
    decreases skip_measure(s, off), 1int, n,
{
    if n > 0 {
        if let Ok(o) = spec_skip(s, off, t) {
            if o > off {
                lemma_skip_elems_advance(s, o, t, (n - 1) as nat);
            }
        }
    }
}

/// Skipping a value lands where reading it ends: whenever the value of type
/// `t` at `off` can be read, skipping it gives the same next offset.
pub proof fn lemma_skip_matches_read(s: Seq<u8>, off: int, t: u32)
    requires
        0 <= off,
        s.len() <= usize::MAX,
    ensures
        spec_value(s, off, t) matches Ok((_, o)) ==> spec_skip(s, off, t) == Ok::<int, GgufError>(o),
    decreases s.len() - off, 0int, 0nat,
{
    lemma_value_advances(s, off, t);
    if t == 9 && off + 12 <= s.len() {
        lemma_skip_elems_matches_read(s, off + 12, le_u32_at(s, off) as u32, le_u64_at(s, off + 4) as nat);
    }
}

/// Skipping `n` elements lands where reading them ends.
pub proof fn lemma_skip_elems_matches_read(s: Seq<u8>, off: int, t: u32, n: nat)
    requires
        0 <= off <= s.len(),
        s.len() <= usize::MAX,
    ensures
        spec_elems(s, off, t, n) matches Ok((_, o)) ==> spec_skip_elems(s, off, t, n) == Ok::<int, GgufError>(o),
    decreases s.len() - off, 1int, n,
{
    if n > 0 {
        lemma_skip_matches_read(s, off, t);
        lemma_value_advances(s, off, t);
        if let Ok((v, o)) = spec_value(s, off, t) {
            if off < o <= s.len() {
                lemma_skip_elems_matches_read(s, o, t, (n - 1) as nat);
            }
        }
    }
}

/// Skips the value of type `t` at `off`, giving the offset after it
/// (see [`spec_skip`]). The type must be a known one (0..=12); an array
/// whose elements have an unknown type is reported as an error.
pub fn skip_gguf_value(s: &[u8], off: usize, t: u32) -> (r: Result<usize, GgufError>)
    requires
        t <= 12,
    ensures
        match r {
            Ok(o) => spec_skip(s@, off as int, t) == Ok::<int, GgufError>(o as int),
            Err(e) => spec_skip(s@, off as int, t) == Err::<int, GgufError>(e),
        },
    decreases skip_measure(s@, off as int),
{
    if t == 8 {
        if off > s.len() || s.len() - off < 8 {
            return Err(GgufError::Truncated);
        }
        let len = read_u64_le(s, off);
        if len > (usize::MAX - (off + 8)) as u64 {
            return Err(GgufError::OffsetOverflow);
        }
        return Ok(off + 8 + len as usize);
    }
    if t == 9 {
        if off > s.len() || s.len() - off < 12 {
            return Err(GgufError::Truncated);
        }
        let et = read_u32_le(s, off);
        let n = read_u64_le(s, off + 4);
        if n > 0 && et > 12 {
            assert(spec_skip(s@, off + 12, et) == Err::<int, GgufError>(GgufError::UnknownValueType(et)));
            assert(spec_skip_elems(s@, off + 12, et, n as nat) == Err::<int, GgufError>(
                GgufError::UnknownValueType(et),
            ));
            return Err(GgufError::UnknownValueType(et));
        }
        let mut cur: usize = off + 12;
        let mut k: u64 = 0;
        while k < n
            invariant
                off + 12 <= cur,
                off + 12 <= s@.len(),
                k <= n,
                n > 0 ==> et <= 12,
                spec_skip(s@, off as int, t) == spec_skip_elems(s@, off + 12, et, n as nat),
                spec_skip_elems(s@, off + 12, et, n as nat) == spec_skip_elems(
                    s@,
                    cur as int,
                    et,
                    (n - k) as nat,
                ),
            decreases n - k,
        {
            proof {
                lemma_skip_advances(s@, cur as int, et);
            }
            match skip_gguf_value(s, cur, et) {
                Err(e) => {
                    return Err(e);
                },
                Ok(o) => {
                    cur = o;
                    k = k + 1;
                },
            }
        }
        return Ok(cur);
    }
    let w = scalar_width_exec(t);
    if off > usize::MAX - w {
        return Err(GgufError::OffsetOverflow);
    }
    Ok(off + w)
}

// ---------------------------------------------------------------------------
// Header and key/value section
// ---------------------------------------------------------------------------

/// The four bytes "GGUF" read as a little-endian `u32`.
pub const GGUF_MAGIC: u32 = 0x46554747;

/// `lit` as a `String`.
fn owned(lit: &str) -> (r: String)
    ensures
        r@ == lit@,
{
    broadcast use vstd::string::to_string_from_display_ensures_for_str;

    lit.to_string()
}

/// Whether `a` holds exactly the characters of `lit`.
pub fn string_is(a: &String, lit: &str) -> (r: bool)
    ensures
        r == (a@ == lit@),
{
    let b = owned(lit);
    *a == b
}

/// The value of `general.architecture`, searched among `remaining` key/value
/// pairs starting at `off`. Each key is a GGUF string followed by a `u32`
/// value type; the architecture value is read as a string whatever its type
/// code says, and the values of other keys are skipped (see [`spec_skip`]).
pub open spec fn spec_find_architecture(s: Seq<u8>, off: int, remaining: nat) -> Result<Seq<char>, GgufError>
    decreases remaining,
{
    if remaining == 0 {
        Err(GgufError::ArchitectureNotFound)
    } else {
        match spec_string(s, off) {
            Err(e) => Err(e),
            Ok((key, o)) => if o + 4 > s.len() {
                Err(GgufError::Truncated)
            } else if key == "general.architecture"@ {
                match spec_string(s, o + 4) {
                    Ok((v, _)) => Ok(v),
                    Err(e) => Err(e),
                }
            } else {
                match spec_skip(s, o + 4, le_u32_at(s, o) as u32) {
                    Err(e) => Err(e),
                    Ok(o2) => spec_find_architecture(s, o2, (remaining - 1) as nat),
                }
            },
        }
    }
}

/// The architecture named in a GGUF file: the magic must match, and the
/// key/value count is read from bytes 16..24 with the pairs starting at 24.
pub open spec fn spec_gguf_architecture(s: Seq<u8>) -> Result<Seq<char>, GgufError> {
    if s.len() < 4 {
        Err(GgufError::Truncated)
    } else if le_u32_at(s, 0) != GGUF_MAGIC {
        Err(GgufError::BadMagic)
    } else if s.len() < 24 {
        Err(GgufError::Truncated)
    } else {
        spec_find_architecture(s, 24, le_u64_at(s, 16) as nat)
    }
}

/// Reads the `general.architecture` string of a GGUF file without reading the
/// rest of its metadata.
pub fn read_gguf_architecture(s: &[u8]) -> (r: Result<String, GgufError>)
    ensures
        match r {
            Ok(a) => spec_gguf_architecture(s@) == Ok::<Seq<char>, GgufError>(a@),
            Err(e) => spec_gguf_architecture(s@) == Err::<Seq<char>, GgufError>(e),
        },
{
    if s.len() < 4 {
        return Err(GgufError::Truncated);
    }
    let magic = read_u32_le(s, 0);
    if magic != GGUF_MAGIC {
        return Err(GgufError::BadMagic);
    }
    if s.len() < 24 {
        return Err(GgufError::Truncated);
    }
    let kv_count = read_u64_le(s, 16);
    let mut off: usize = 24;
    let mut k: u64 = 0;
    while k < kv_count
        invariant
            k <= kv_count,
            s@.len() >= 24,
            spec_gguf_architecture(s@) == spec_find_architecture(s@, off as int, (kv_count - k) as nat),
        decreases kv_count - k,
    {
        let (key, o) = match read_gguf_string(s, off) {
            Ok(p) => p,
            Err(e) => {
                return Err(e);
            },
        };
        if o > s.len() || s.len() - o < 4 {
            return Err(GgufError::Truncated);
        }
        let vtype = read_u32_le(s, o);
        if string_is(&key, "general.architecture") {
            return match read_gguf_string(s, o + 4) {
                Ok((v, _)) => Ok(v),
                Err(e) => Err(e),
            };
        }
        if vtype > 12 {
            return Err(GgufError::UnknownValueType(vtype));
        }
        match skip_gguf_value(s, o + 4, vtype) {
            Ok(o2) => {
                off = o2;
            },
            Err(e) => {
                return Err(e);
            },
        }
        k = k + 1;
    }
    Err(GgufError::ArchitectureNotFound)
}

/// The metadata section of a GGUF file: the key/value pairs in file order.
/// A key that occurs more than once means its last value.
#[derive(Debug)]
pub struct GgufMetadata {
    pub version: u32,
    pub tensor_count: u64,
    pub entries: Vec<(String, GgufValue)>,
}

/// Model of a list of key/value pairs.
pub open spec fn entries_model(e: Seq<(String, GgufValue)>) -> Seq<(Seq<char>, GgufVal)> {
    e.map_values(|p: (String, GgufValue)| (p.0@, p.1.model()))
}

impl GgufMetadata {
    pub open spec fn model(&self) -> Seq<(Seq<char>, GgufVal)> {
        entries_model(self.entries@)
    }
}

/// The value of `key`: that of its last occurrence.
pub open spec fn spec_lookup(entries: Seq<(Seq<char>, GgufVal)>, key: Seq<char>) -> Option<GgufVal>
    decreases entries.len(),
{
    if entries.len() == 0 {
        None
    } else if entries.last().0 == key {
        Some(entries.last().1)
    } else {
        spec_lookup(entries.drop_last(), key)
    }
}

/// `n` key/value pairs from `off`: a string key, a `u32` value type, a value.
pub open spec fn spec_kv_pairs(s: Seq<u8>, off: int, n: nat) -> Result<
    (Seq<(Seq<char>, GgufVal)>, int),
    GgufError,
>
    decreases n,
{
    if n == 0 {
        Ok((Seq::empty(), off))
    } else {
        match spec_string(s, off) {
            Err(e) => Err(e),
            Ok((key, o)) => if o + 4 > s.len() {
                Err(GgufError::Truncated)
            } else {
                match spec_value(s, o + 4, le_u32_at(s, o) as u32) {
                    Err(e) => Err(e),
                    Ok((v, o2)) => match spec_kv_pairs(s, o2, (n - 1) as nat) {
                        Err(e) => Err(e),
                        Ok((rest, o3)) => Ok((seq![(key, v)] + rest, o3)),
                    },
                }
            },
        }
    }
}

/// Header and metadata of a GGUF file, and the offset where the tensor
/// descriptors begin: the magic, version 3, then the tensor count (bytes
/// 8..16), the key/value count (bytes 16..24) and the pairs.
pub open spec fn spec_gguf_metadata(s: Seq<u8>) -> Result<(u32, u64, Seq<(Seq<char>, GgufVal)>, int), GgufError> {
    if s.len() < 4 {
        Err(GgufError::Truncated)
    } else if le_u32_at(s, 0) != GGUF_MAGIC {
        Err(GgufError::BadMagic)
    } else if s.len() < 8 {
        Err(GgufError::Truncated)
    } else if le_u32_at(s, 4) != 3 {
        Err(GgufError::UnsupportedVersion(le_u32_at(s, 4) as u32))
    } else if s.len() < 24 {
        Err(GgufError::Truncated)
    } else {
        match spec_kv_pairs(s, 24, le_u64_at(s, 16) as nat) {
            Err(e) => Err(e),
            Ok((entries, o)) => Ok((3u32, le_u64_at(s, 8) as u64, entries, o)),
        }
    }
}

/// The file starts with the GGUF magic and version 3; any other file is not
/// a model this loader reads.
pub open spec fn gguf_v3_header(s: Seq<u8>) -> bool {
    s.len() >= 8 && le_u32_at(s, 0) == GGUF_MAGIC && le_u32_at(s, 4) == 3
}

/// Whether the file starts with the GGUF magic and version 3 (see
/// [`gguf_v3_header`]); a loader checks it before [`parse_gguf_metadata`].
pub fn has_gguf_v3_header(s: &[u8]) -> (r: bool)
    ensures
        r == gguf_v3_header(s@),
{
    s.len() >= 8 && read_u32_le(s, 0) == GGUF_MAGIC && read_u32_le(s, 4) == 3
}

/// The magic and version of a GGUF file, for the loader's messages.
pub fn gguf_magic_and_version(s: &[u8]) -> (r: (u32, u32))
    requires
        s@.len() >= 8,
    ensures
        r.0 == le_u32_at(s@, 0),
        r.1 == le_u32_at(s@, 4),
{
    (read_u32_le(s, 0), read_u32_le(s, 4))
}

/// Reads the header and the key/value section of a GGUF version 3 file;
/// gives the metadata and the offset of the tensor descriptors. A truncated
/// section and an unknown value type are reported as errors.
pub fn parse_gguf_metadata(s: &[u8]) -> (r: Result<(GgufMetadata, usize), GgufError>)
    requires
        gguf_v3_header(s@),
    ensures
        match r {
            Ok((m, o)) => spec_gguf_metadata(s@) == Ok::<_, GgufError>(
                (m.version, m.tensor_count, m.model(), o as int),
            ),
            Err(e) => spec_gguf_metadata(s@) == Err::<(u32, u64, Seq<(Seq<char>, GgufVal)>, int), GgufError>(e),
        },
{
    if s.len() < 24 {
        return Err(GgufError::Truncated);
    }
    let tensor_count = read_u64_le(s, 8);
    let kv_count = read_u64_le(s, 16);
    let mut entries: Vec<(String, GgufValue)> = Vec::new();
    let mut off: usize = 24;
    let mut k: u64 = 0;
    assert(entries_model(entries@) =~= Seq::<(Seq<char>, GgufVal)>::empty());
    while k < kv_count
        invariant
            k <= kv_count,
            s@.len() >= 24,
            le_u32_at(s@, 0) == GGUF_MAGIC,
            le_u32_at(s@, 4) == 3,
            tensor_count == le_u64_at(s@, 8),
            kv_count == le_u64_at(s@, 16),
            spec_kv_pairs(s@, 24, kv_count as nat) == match spec_kv_pairs(s@, off as int, (kv_count - k) as nat) {
                Ok((rest, o)) => Ok((entries_model(entries@) + rest, o)),
                Err(e) => Err::<(Seq<(Seq<char>, GgufVal)>, int), GgufError>(e),
            },
        decreases kv_count - k,
    {
        let (key, o) = match read_gguf_string(s, off) {
            Ok(p) => p,
            Err(e) => {
                return Err(e);
            },
        };
        if o > s.len() || s.len() - o < 4 {
            return Err(GgufError::Truncated);
        }
        let vtype = read_u32_le(s, o);
        let (value, o2) = match read_gguf_value(s, o + 4, vtype) {
            Ok(p) => p,
            Err(e) => {
                return Err(e);
            },
        };
        let ghost old_entries = entries@;
        let ghost kv = (key@, value.model());
        entries.push((key, value));
        proof {
            assert(entries_model(entries@) =~= entries_model(old_entries).push(kv));
            if let Ok((rest, o3)) = spec_kv_pairs(s@, o2 as int, (kv_count - k - 1) as nat) {
                assert(entries_model(old_entries) + (seq![kv] + rest) =~= entries_model(entries@) + rest);
            }
        }
        off = o2;
        k = k + 1;
    }
    assert(entries_model(entries@) + Seq::<(Seq<char>, GgufVal)>::empty() =~= entries_model(entries@));
    Ok((GgufMetadata { version: 3, tensor_count, entries }, off))
}

/// Looks up a key: the value of its last occurrence.
pub fn lookup<'a>(meta: &'a GgufMetadata, key: &str) -> (r: Option<&'a GgufValue>)
    ensures
        match r {
            Some(v) => spec_lookup(meta.model(), key@) == Some(v.model()),
            None => spec_lookup(meta.model(), key@) is None,
        },
{
    let k = owned(key);
    let mut i = meta.entries.len();
    assert(meta.entries@.subrange(0, i as int) =~= meta.entries@);
    while i > 0
        invariant
            i <= meta.entries@.len(),
            k@ == key@,
            spec_lookup(meta.model(), key@) == spec_lookup(entries_model(meta.entries@.subrange(0, i as int)), key@),
        decreases i,
    {
        let ghost sub = entries_model(meta.entries@.subrange(0, i as int));
        assert(sub.drop_last() =~= entries_model(meta.entries@.subrange(0, i - 1)));
        if meta.entries[i - 1].0 == k {
            return Some(&meta.entries[i - 1].1);
        }
        i = i - 1;
    }
    None
}

// ---------------------------------------------------------------------------
// Typed metadata access
// ---------------------------------------------------------------------------

/// A floating-point metadata value, by its bit pattern.
#[derive(Debug, Clone, Copy, PartialEq, Eq, Structural)]
pub enum GgufFloat {
    F32Bits(u32),
    F64Bits(u64),
}

/// The string held by a value, if it is a string.
pub open spec fn as_string(v: Option<GgufVal>) -> Option<Seq<char>> {
    match v {
        Some(GgufVal::String(s)) => Some(s),
        _ => None,
    }
}

/// The unsigned integer held by a `Uint64` or `Uint32` value.
pub open spec fn as_u64(v: Option<GgufVal>) -> Option<u64> {
    match v {
        Some(GgufVal::Uint64(x)) => Some(x),
        Some(GgufVal::Uint32(x)) => Some(x as u64),
        _ => None,
    }
}

/// The flag held by a `Bool`, or a nonzero test of a `Uint8`, `Uint32` or
/// `Uint64` value.
pub open spec fn as_bool(v: Option<GgufVal>) -> Option<bool> {
    match v {
        Some(GgufVal::Bool(b)) => Some(b),
        Some(GgufVal::Uint8(x)) => Some(x != 0),
        Some(GgufVal::Uint32(x)) => Some(x != 0),
        Some(GgufVal::Uint64(x)) => Some(x != 0),
        _ => None,
    }
}

/// The bit pattern of a `Float32` or `Float64` value.
pub open spec fn as_float(v: Option<GgufVal>) -> Option<GgufFloat> {
    match v {
        Some(GgufVal::Float32Bits(x)) => Some(GgufFloat::F32Bits(x)),
        Some(GgufVal::Float64Bits(x)) => Some(GgufFloat::F64Bits(x)),
        _ => None,
    }
}

/// A token id: a `Uint32`, or an `Int32`, `Uint64` or `Int64` truncated to
/// 32 bits.
pub open spec fn as_token_id(v: Option<GgufVal>) -> Option<u32> {
    match v {
        Some(GgufVal::Uint32(x)) => Some(x),
        Some(GgufVal::Int32(x)) => Some(x as u32),
        Some(GgufVal::Uint64(x)) => Some(x as u32),
        Some(GgufVal::Int64(x)) => Some(x as u32),
        _ => None,
    }
}

/// The string value of `key`, if it has one.
pub fn get_metadata_string(meta: &GgufMetadata, key: &str) -> (r: Option<String>)
    ensures
        r matches Some(s) ==> as_string(spec_lookup(meta.model(), key@)) == Some(s@),
        r is None ==> as_string(spec_lookup(meta.model(), key@)) is None,
{
    match lookup(meta, key) {
        Some(GgufValue::String(s)) => Some(s.clone()),
        _ => None,
    }
}

/// The `u64` or `u32` value of `key`, if it has one.
pub fn get_metadata_u64(meta: &GgufMetadata, key: &str) -> (r: Option<u64>)
    ensures
        r == as_u64(spec_lookup(meta.model(), key@)),
{
    match lookup(meta, key) {
        Some(GgufValue::Uint64(v)) => Some(*v),
        Some(GgufValue::Uint32(v)) => Some(*v as u64),
        _ => None,
    }
}

/// The `u64` or `u32` value of `key`, or `default`.
pub fn get_metadata_optional_u64(meta: &GgufMetadata, key: &str, default: u64) -> (r: u64)
    ensures
        r == match as_u64(spec_lookup(meta.model(), key@)) {
            Some(v) => v,
            None => default,
        },
{
    match get_metadata_u64(meta, key) {
        Some(v) => v,
        None => default,
    }
}

/// The flag value of `key` (see [`as_bool`]), or `default`.
pub fn get_metadata_optional_bool(meta: &GgufMetadata, key: &str, default: bool) -> (r: bool)
    ensures
        r == match as_bool(spec_lookup(meta.model(), key@)) {
            Some(v) => v,
            None => default,
        },
{
    match lookup(meta, key) {
        Some(GgufValue::Bool(v)) => *v,
        Some(GgufValue::Uint8(v)) => *v != 0,
        Some(GgufValue::Uint32(v)) => *v != 0,
        Some(GgufValue::Uint64(v)) => *v != 0,
        _ => default,
    }
}

/// The string value of `key`, or `default`.
pub fn get_metadata_optional_string(meta: &GgufMetadata, key: &str, default: &str) -> (r: String)
    ensures
        r@ == match as_string(spec_lookup(meta.model(), key@)) {
            Some(v) => v,
            None => default@,
        },
{
    match get_metadata_string(meta, key) {
        Some(s) => s,
        None => owned(default),
    }
}

/// The floating-point value of `key`, by its bit pattern, if it has one.
pub fn get_metadata_float(meta: &GgufMetadata, key: &str) -> (r: Option<GgufFloat>)
    ensures
        r == as_float(spec_lookup(meta.model(), key@)),
{
    match lookup(meta, key) {
        Some(GgufValue::Float32Bits(v)) => Some(GgufFloat::F32Bits(*v)),
        Some(GgufValue::Float64Bits(v)) => Some(GgufFloat::F64Bits(*v)),
        _ => None,
    }
}

/// The token id value of `key` (see [`as_token_id`]), or `default`.
pub fn get_metadata_token_id(meta: &GgufMetadata, key: &str, default: u32) -> (r: u32)
    ensures
        r == match as_token_id(spec_lookup(meta.model(), key@)) {
            Some(v) => v,
            None => default,
        },
{
    match lookup(meta, key) {
        Some(GgufValue::Uint32(v)) => *v,
        Some(GgufValue::Int32(v)) => *v as u32,
        Some(GgufValue::Uint64(v)) => *v as u32,
        Some(GgufValue::Int64(v)) => *v as u32,
        _ => default,
    }
}

// ---------------------------------------------------------------------------
// Tensor descriptors
// ---------------------------------------------------------------------------

/// Where a tensor is and what it holds.
#[derive(Debug)]
pub struct TensorInfo {
    pub name: String,
    pub dims: Vec<u64>,
    pub tensor_type: u32,
    /// Offset from the start of the tensor data section.
    pub data_offset: u64,
    /// Product of the dimensions.
    pub n_elements: usize,
}

/// Model of a [`TensorInfo`].
pub struct TensorInfoModel {
    pub name: Seq<char>,
    pub dims: Seq<u64>,
    pub tensor_type: u32,
    pub data_offset: u64,
    pub n_elements: int,
}

impl TensorInfo {
    pub open spec fn model(&self) -> TensorInfoModel {
        TensorInfoModel {
            name: self.name@,
            dims: self.dims@,
            tensor_type: self.tensor_type,
            data_offset: self.data_offset,
            n_elements: self.n_elements as int,
        }
    }
}

/// `n` dimensions (`u64` each) from `off`, multiplied into `acc` one at a
/// time; every partial product must fit in `usize`. Gives the dimensions, the
/// product and the offset after them.
pub open spec fn spec_dims(s: Seq<u8>, off: int, n: nat, acc: int) -> Result<(Seq<u64>, int, int), GgufError>
    decreases n,
{
    if n == 0 {
        Ok((Seq::empty(), acc, off))
    } else if off + 8 > s.len() {
        Err(GgufError::Truncated)
    } else if acc * le_u64_at(s, off) > usize::MAX {
        Err(GgufError::SizeOverflow)
    } else {
        match spec_dims(s, off + 8, (n - 1) as nat, acc * le_u64_at(s, off)) {
            Ok((ds, p, o)) => Ok((seq![le_u64_at(s, off) as u64] + ds, p, o)),
            Err(e) => Err(e),
        }
    }
}

/// One tensor descriptor at `off`: name, `u32` dimension count, the
/// dimensions, `u32` tensor type and `u64` data offset.
pub open spec fn spec_tensor_info(s: Seq<u8>, off: int) -> Result<(TensorInfoModel, int), GgufError> {
    match spec_string(s, off) {
        Err(e) => Err(e),
        Ok((name, o)) => if o + 4 > s.len() {
            Err(GgufError::Truncated)
        } else {
            match spec_dims(s, o + 4, le_u32_at(s, o) as nat, 1) {
                Err(e) => Err(e),
                Ok((dims, n_elements, o2)) => if o2 + 12 > s.len() {
                    Err(GgufError::Truncated)
                } else {
                    Ok((
                        TensorInfoModel {
                            name,
                            dims,
                            tensor_type: le_u32_at(s, o2) as u32,
                            data_offset: le_u64_at(s, o2 + 4) as u64,
                            n_elements,
                        },
                        o2 + 12,
                    ))
                },
            }
        },
    }
}

/// `n` tensor descriptors one after another from `off`.
pub open spec fn spec_tensor_infos(s: Seq<u8>, off: int, n: nat) -> Result<(Seq<TensorInfoModel>, int), GgufError>
    decreases n,
{
    if n == 0 {
        Ok((Seq::empty(), off))
    } else {
        match spec_tensor_info(s, off) {
            Err(e) => Err(e),
            Ok((ti, o)) => match spec_tensor_infos(s, o, (n - 1) as nat) {
                Ok((rest, o2)) => Ok((seq![ti] + rest, o2)),
                Err(e) => Err(e),
            },
        }
    }
}

fn read_dims(s: &[u8], off: usize, n: u32) -> (r: Result<(Vec<u64>, usize, usize), GgufError>)
    ensures
        match r {
            Ok((ds, p, o)) => spec_dims(s@, off as int, n as nat, 1) == Ok::<_, GgufError>(
                (ds@, p as int, o as int),
            ),
            Err(e) => spec_dims(s@, off as int, n as nat, 1) == Err::<(Seq<u64>, int, int), GgufError>(e),
        },
{
    let mut dims: Vec<u64> = Vec::new();
    let mut acc: usize = 1;
    let mut cur = off;
    let mut k: u32 = 0;
    while k < n
        invariant
            k <= n,
            spec_dims(s@, off as int, n as nat, 1) == match spec_dims(s@, cur as int, (n - k) as nat, acc as int) {
                Ok((ds, p, o)) => Ok((dims@ + ds, p, o)),
                Err(e) => Err::<(Seq<u64>, int, int), GgufError>(e),
            },
        decreases n - k,
    {
        if cur > s.len() || s.len() - cur < 8 {
            return Err(GgufError::Truncated);
        }
        let d = read_u64_le(s, cur);
        let next: usize = if acc == 0 {
            0
        } else if d > usize::MAX as u64 {
            assert(acc * d >= d) by (nonlinear_arith)
                requires
                    acc >= 1,
            ;
            return Err(GgufError::SizeOverflow);
        } else {
            match acc.checked_mul(d as usize) {
                Some(p) => p,
                None => {
                    return Err(GgufError::SizeOverflow);
                },
            }
        };
        assert(next == acc * d) by (nonlinear_arith)
            requires
                acc == 0 ==> next == 0,
                acc != 0 ==> next == acc * d,
        ;
        let ghost old_dims = dims@;
        dims.push(d);
        proof {
            if let Ok((ds, p, o)) = spec_dims(s@, cur + 8, (n - k - 1) as nat, next as int) {
                assert(old_dims + (seq![d] + ds) =~= dims@ + ds);
            }
        }
        acc = next;
        cur = cur + 8;
        k = k + 1;
    }
    assert(dims@ + Seq::<u64>::empty() =~= dims@);
    Ok((dims, acc, cur))
}

/// Reads one tensor descriptor at `off` (see [`spec_tensor_info`]).
pub fn read_tensor_info(s: &[u8], off: usize) -> (r: Result<(TensorInfo, usize), GgufError>)
    ensures
        match r {
            Ok((ti, o)) => spec_tensor_info(s@, off as int) == Ok::<_, GgufError>((ti.model(), o as int)),
            Err(e) => spec_tensor_info(s@, off as int) == Err::<(TensorInfoModel, int), GgufError>(e),
        },
{
    let (name, o) = match read_gguf_string(s, off) {
        Ok(p) => p,
        Err(e) => {
            return Err(e);
        },
    };
    if o > s.len() || s.len() - o < 4 {
        return Err(GgufError::Truncated);
    }
    let n_dims = read_u32_le(s, o);
    let (dims, n_elements, o2) = match read_dims(s, o + 4, n_dims) {
        Ok(p) => p,
        Err(e) => {
            return Err(e);
        },
    };
    if o2 > s.len() || s.len() - o2 < 12 {
        return Err(GgufError::Truncated);
    }
    let tensor_type = read_u32_le(s, o2);
    let data_offset = read_u64_le(s, o2 + 4);
    let ti = TensorInfo { name, dims, tensor_type, data_offset, n_elements };
    Ok((ti, o2 + 12))
}

/// Reads `n` tensor descriptors from `off`; gives them and the offset after them.
pub fn read_tensor_infos(s: &[u8], off: usize, n: u64) -> (r: Result<(Vec<TensorInfo>, usize), GgufError>)
    ensures
        match r {
            Ok((tis, o)) => spec_tensor_infos(s@, off as int, n as nat) == Ok::<_, GgufError>(
                (tis@.map_values(|t: TensorInfo| t.model()), o as int),
            ),
            Err(e) => spec_tensor_infos(s@, off as int, n as nat) == Err::<(Seq<TensorInfoModel>, int), GgufError>(e),
        },
{
    let mut tis: Vec<TensorInfo> = Vec::new();
    let mut cur = off;
    let mut k: u64 = 0;
    while k < n
        invariant
            k <= n,
            spec_tensor_infos(s@, off as int, n as nat) == match spec_tensor_infos(s@, cur as int, (n - k) as nat) {
                Ok((rest, o)) => Ok((tis@.map_values(|t: TensorInfo| t.model()) + rest, o)),
                Err(e) => Err::<(Seq<TensorInfoModel>, int), GgufError>(e),
            },
        decreases n - k,
    {
        let (ti, o) = match read_tensor_info(s, cur) {
            Ok(p) => p,
            Err(e) => {
                return Err(e);
            },
        };
        let ghost old_tis = tis@;
        let ghost m = ti.model();
        tis.push(ti);
        proof {
            assert(tis@.map_values(|t: TensorInfo| t.model()) =~= old_tis.map_values(|t: TensorInfo| t.model()).push(m));
            if let Ok((rest, o2)) = spec_tensor_infos(s@, o as int, (n - k - 1) as nat) {
                assert(old_tis.map_values(|t: TensorInfo| t.model()) + (seq![m] + rest)
                    =~= tis@.map_values(|t: TensorInfo| t.model()) + rest);
            }
        }
        cur = o;
        k = k + 1;
    }
    assert(tis@.map_values(|t: TensorInfo| t.model()) + Seq::<TensorInfoModel>::empty() =~= tis@.map_values(|t: TensorInfo| t.model()));
    Ok((tis, cur))
}

/// The position of the tensor named `name`: its last descriptor, as a
/// table keyed by name keeps it.
pub open spec fn spec_find_tensor(infos: Seq<TensorInfo>, name: Seq<char>) -> Option<int>
    decreases infos.len(),
{
    if infos.len() == 0 {
        None
    } else if infos.last().name@ == name {
        Some(infos.len() - 1)
    } else {
        spec_find_tensor(infos.drop_last(), name)
    }
}

/// Finds the descriptor of the tensor named `name` (see
/// [`spec_find_tensor`]).
pub fn find_tensor(infos: &[TensorInfo], name: &str) -> (r: Option<usize>)
    ensures
        match r {
            Some(k) => spec_find_tensor(infos@, name@) == Some(k as int),
            None => spec_find_tensor(infos@, name@) is None,
        },
{
    let mut i: usize = infos.len();
    assert(infos@.subrange(0, i as int) =~= infos@);
    while i > 0
        invariant
            i <= infos@.len(),
            spec_find_tensor(infos@, name@) == spec_find_tensor(infos@.subrange(0, i as int), name@),
        decreases i,
    {
        let ghost pre = infos@.subrange(0, i as int);
        assert(pre.drop_last() =~= infos@.subrange(0, i - 1));
        if string_is(&infos[i - 1].name, name) {
            return Some(i - 1);
        }
        i = i - 1;
    }
    None
}

/// A nonzero number with no bit in common with its predecessor, that is, a
/// power of two.
pub open spec fn is_power_of_two(a: u64) -> bool {
    a != 0 && a & ((a - 1) as u64) == 0
}

/// The alignment of the tensor data: `general.alignment` as a `u64` or
/// `u32`, else 32.
pub open spec fn spec_alignment(meta: Seq<(Seq<char>, GgufVal)>) -> u64 {
    match as_u64(spec_lookup(meta, "general.alignment"@)) {
        Some(a) => a,
        None => 32,
    }
}

/// Where the tensor data starts: the end of the descriptors rounded up to the
/// alignment, which must be a power of two.
pub open spec fn spec_tensor_data_start(meta: Seq<(Seq<char>, GgufVal)>, end_of_infos: int) -> Result<u64, GgufError> {
    let a = spec_alignment(meta);
    if !is_power_of_two(a) {
        Err(GgufError::BadAlignment(a))
    } else if end_of_infos + a - 1 > u64::MAX {
        Err(GgufError::SizeOverflow)
    } else {
        Ok((((end_of_infos + a - 1) / (a as int)) * a) as u64)
    }
}

/// The alignment of the tensor data (see [`spec_alignment`]); a loader
/// checks that it is a power of two before [`tensor_data_start`].
pub fn gguf_alignment(meta: &GgufMetadata) -> (r: u64)
    ensures
        r == spec_alignment(meta.model()),
{
    match get_metadata_u64(meta, "general.alignment") {
        Some(a) => a,
        None => 32,
    }
}

/// Computes where the tensor data starts (see [`spec_tensor_data_start`]);
/// the alignment must be a power of two. An end that overflows a `u64` is
/// reported as an error.
pub fn tensor_data_start(meta: &GgufMetadata, end_of_infos: usize) -> (r: Result<u64, GgufError>)
    requires
        is_power_of_two(spec_alignment(meta.model())),
    ensures
        r == spec_tensor_data_start(meta.model(), end_of_infos as int),
{
    let a = gguf_alignment(meta);
    let e = end_of_infos as u64;
    if e > u64::MAX - (a - 1) {
        return Err(GgufError::SizeOverflow);
    }
    let q = (e + (a - 1)) / a;
    assert(q * a <= e + a - 1) by (nonlinear_arith)
        requires
            q == (e + a - 1) / (a as int),
            a > 0,
            e + a - 1 >= 0,
    ;
    Ok(q * a)
}

// ---------------------------------------------------------------------------
// LLaMA model configuration
// ---------------------------------------------------------------------------

/// The GGML tensor type codes.
pub const GGML_TYPE_F32: u32 = 0;
pub const GGML_TYPE_F16: u32 = 1;
pub const GGML_TYPE_Q4_0: u32 = 2;
pub const GGML_TYPE_Q4_1: u32 = 3;
pub const GGML_TYPE_Q5_0: u32 = 6;
pub const GGML_TYPE_Q5_1: u32 = 7;
pub const GGML_TYPE_Q8_0: u32 = 8;
pub const GGML_TYPE_Q8_1: u32 = 9;
pub const GGML_TYPE_Q2_K: u32 = 10;
pub const GGML_TYPE_Q3_K: u32 = 11;
pub const GGML_TYPE_Q4_K: u32 = 12;
pub const GGML_TYPE_Q5_K: u32 = 13;
pub const GGML_TYPE_Q6_K: u32 = 14;
pub const GGML_TYPE_Q8_K: u32 = 15;

/// The name of a GGML tensor type code.
pub open spec fn spec_ggml_type_name(t: u32) -> Seq<char> {
    if t == GGML_TYPE_F32 {
        "F32"@
    } else if t == GGML_TYPE_F16 {
        "F16"@
    } else if t == GGML_TYPE_Q4_0 {
        "Q4_0"@
    } else if t == GGML_TYPE_Q4_1 {
        "Q4_1"@
    } else if t == GGML_TYPE_Q5_0 {
        "Q5_0"@
    } else if t == GGML_TYPE_Q5_1 {
        "Q5_1"@
    } else if t == GGML_TYPE_Q8_0 {
        "Q8_0"@
    } else if t == GGML_TYPE_Q8_1 {
        "Q8_1"@
    } else if t == GGML_TYPE_Q2_K {
        "Q2_K"@
    } else if t == GGML_TYPE_Q3_K {
        "Q3_K"@
    } else if t == GGML_TYPE_Q4_K {
        "Q4_K"@
    } else if t == GGML_TYPE_Q5_K {
        "Q5_K"@
    } else if t == GGML_TYPE_Q6_K {
        "Q6_K"@
    } else if t == GGML_TYPE_Q8_K {
        "Q8_K"@
    } else {
        "unknown"@
    }
}

/// The name of a GGML tensor type code (see [`spec_ggml_type_name`]).
pub fn ggml_type_name(t: u32) -> (r: &'static str)
    ensures
        r@ == spec_ggml_type_name(t),
{
    if t == GGML_TYPE_F32 {
        "F32"
    } else if t == GGML_TYPE_F16 {
        "F16"
    } else if t == GGML_TYPE_Q4_0 {
        "Q4_0"
    } else if t == GGML_TYPE_Q4_1 {
        "Q4_1"
    } else if t == GGML_TYPE_Q5_0 {
        "Q5_0"
    } else if t == GGML_TYPE_Q5_1 {
        "Q5_1"
    } else if t == GGML_TYPE_Q8_0 {
        "Q8_0"
    } else if t == GGML_TYPE_Q8_1 {
        "Q8_1"
    } else if t == GGML_TYPE_Q2_K {
        "Q2_K"
    } else if t == GGML_TYPE_Q3_K {
        "Q3_K"
    } else if t == GGML_TYPE_Q4_K {
        "Q4_K"
    } else if t == GGML_TYPE_Q5_K {
        "Q5_K"
    } else if t == GGML_TYPE_Q6_K {
        "Q6_K"
    } else if t == GGML_TYPE_Q8_K {
        "Q8_K"
    } else {
        "unknown"
    }
}

/// A metadata key that the LLaMA loader cannot do without.
#[derive(Debug, Clone, Copy, PartialEq, Eq, Structural)]
pub enum RequiredKey {
    Architecture,
    EmbeddingLength,
    FeedForwardLength,
    BlockCount,
    HeadCount,
    RmsEpsilon,
    ContextLength,
    Tokens,
}

impl RequiredKey {
    /// The metadata key itself, as characters.
    pub open spec fn spec_name(self) -> Seq<char> {
        match self {
            RequiredKey::Architecture => "general.architecture"@,
            RequiredKey::EmbeddingLength => "llama.embedding_length"@,
            RequiredKey::FeedForwardLength => "llama.feed_forward_length"@,
            RequiredKey::BlockCount => "llama.block_count"@,
            RequiredKey::HeadCount => "llama.attention.head_count"@,
            RequiredKey::RmsEpsilon => "llama.attention.layer_norm_rms_epsilon"@,
            RequiredKey::ContextLength => "llama.context_length"@,
            RequiredKey::Tokens => "tokenizer.ggml.tokens"@,
        }
    }

    /// The metadata key itself (see [`RequiredKey::spec_name`]).
    pub fn name(&self) -> (r: &'static str)
        ensures
            r@ == self.spec_name(),
    {
        match self {
            RequiredKey::Architecture => "general.architecture",
            RequiredKey::EmbeddingLength => "llama.embedding_length",
            RequiredKey::FeedForwardLength => "llama.feed_forward_length",
            RequiredKey::BlockCount => "llama.block_count",
            RequiredKey::HeadCount => "llama.attention.head_count",
            RequiredKey::RmsEpsilon => "llama.attention.layer_norm_rms_epsilon",
            RequiredKey::ContextLength => "llama.context_length",
            RequiredKey::Tokens => "tokenizer.ggml.tokens",
        }
    }
}

/// Why the metadata does not describe a loadable LLaMA model.
#[derive(Debug, Clone, Copy, PartialEq, Eq, Structural)]
pub enum GgufConfigError {
    /// The key is missing or holds a value of the wrong type.
    MissingKey(RequiredKey),
    /// `general.architecture` is not "llama".
    NotLlama,
    /// The head count is zero.
    ZeroHeads,
    /// The embedding length is not a multiple of the head count.
    HeadsDoNotDivide { dim: u32, n_heads: u32 },
    /// `tokenizer.ggml.tokens` is not an array.
    TokensNotArray,
    /// A `general.file_type` other than F16 (1), Q4_0 (2) or Q8_0 (7).
    UnsupportedFileType(u64),
    /// An element of `tokenizer.ggml.tokens` or `tokenizer.ggml.merges` is not a string.
    TokenNotString,
}

/// The quantization and weight format: the override when there is one, else
/// from `general.file_type` (1 F16, 2 Q4_0, 7 Q8_0).
pub open spec fn spec_gguf_format(fmt_override: Option<WeightFormat>, file_type: u64) -> Result<
    (QuantType, WeightFormat),
    GgufConfigError,
> {
    match fmt_override {
        Some(WeightFormat::Q8_0) => Ok((QuantType::Q8_0, WeightFormat::Q8_0)),
        Some(WeightFormat::Q4_0) => Ok((QuantType::Q4_0, WeightFormat::Q4_0)),
        Some(WeightFormat::F16) => Ok((QuantType::F16, WeightFormat::F16)),
        None => if file_type == 1 {
            Ok((QuantType::F16, WeightFormat::F16))
        } else if file_type == 2 {
            Ok((QuantType::Q4_0, WeightFormat::Q4_0))
        } else if file_type == 7 {
            Ok((QuantType::Q8_0, WeightFormat::Q8_0))
        } else {
            Err(GgufConfigError::UnsupportedFileType(file_type))
        },
    }
}

/// Chooses the quantization and weight format (see [`spec_gguf_format`]);
/// without an override, the file type must be 1, 2 or 7.
pub fn gguf_format(fmt_override: Option<WeightFormat>, file_type: u64) -> (r: Result<
    (QuantType, WeightFormat),
    GgufConfigError,
>)
    requires
        spec_gguf_format(fmt_override, file_type) is Ok,
    ensures
        r == spec_gguf_format(fmt_override, file_type),
{
    match fmt_override {
        Some(WeightFormat::Q8_0) => Ok((QuantType::Q8_0, WeightFormat::Q8_0)),
        Some(WeightFormat::Q4_0) => Ok((QuantType::Q4_0, WeightFormat::Q4_0)),
        Some(WeightFormat::F16) => Ok((QuantType::F16, WeightFormat::F16)),
        None => if file_type == 1 {
            Ok((QuantType::F16, WeightFormat::F16))
        } else if file_type == 2 {
            Ok((QuantType::Q4_0, WeightFormat::Q4_0))
        } else if file_type == 7 {
            Ok((QuantType::Q8_0, WeightFormat::Q8_0))
        } else {
            Err(GgufConfigError::UnsupportedFileType(file_type))
        },
    }
}

/// The shape and format of a LLaMA model described by GGUF metadata. The
/// floating-point settings are the raw metadata values; absent optional ones
/// take their defaults where the forward pass is set up.
#[derive(Debug, Clone, Copy, PartialEq, Eq, Structural)]
pub struct GgufLlamaConfig {
    pub dim: u32,
    pub hidden_dim: u32,
    pub n_layers: u32,
    pub n_heads: u32,
    pub n_kv_heads: u32,
    pub head_size: u32,
    pub seq_len: u32,
    /// The context length used: the model's, capped by the caller's maximum.
    pub ctx_len: u32,
    pub vocab_size: u32,
    pub file_type: u64,
    pub rms_norm_eps: GgufFloat,
    pub rope_theta: Option<GgufFloat>,
    pub rope_scaling_factor: Option<GgufFloat>,
    pub rope_ext_factor: Option<GgufFloat>,
    pub rope_attn_factor: Option<GgufFloat>,
    pub attention_scale: Option<GgufFloat>,
    pub rope_original_ctx_len: u32,
    pub q_type: QuantType,
    pub weight_format: WeightFormat,
    pub group_size: u32,
}

/// Number of elements of an array value.
pub open spec fn array_len(v: Option<GgufVal>) -> Option<nat> {
    match v {
        Some(GgufVal::Array(items)) => Some(items.len()),
        _ => None,
    }
}

/// The configuration of a LLaMA model, read from its metadata in the order
/// the loader checks it: architecture "llama"; embedding, feed-forward, block
/// and head counts (each truncated to 32 bits); the key/value head count
/// (default: the head count); the RMS epsilon; the file type (default 7);
/// the context length; the head size, which needs a nonzero head count that
/// divides the embedding length; the vocabulary size (the length of the
/// token array, truncated to 32 bits); the original context length of the
/// RoPE scaling (default: the context length); and the format.
pub open spec fn spec_llama_config(m: Seq<(Seq<char>, GgufVal)>, max_ctx_len: u32, fmt_override: Option<WeightFormat>) -> Result<
    GgufLlamaConfig,
    GgufConfigError,
> {
    let arch = as_string(spec_lookup(m, "general.architecture"@));
    let dim = as_u64(spec_lookup(m, "llama.embedding_length"@));
    let hidden = as_u64(spec_lookup(m, "llama.feed_forward_length"@));
    let layers = as_u64(spec_lookup(m, "llama.block_count"@));
    let heads = as_u64(spec_lookup(m, "llama.attention.head_count"@));
    let eps = as_float(spec_lookup(m, "llama.attention.layer_norm_rms_epsilon"@));
    let ctx = as_u64(spec_lookup(m, "llama.context_length"@));
    let tokens = spec_lookup(m, "tokenizer.ggml.tokens"@);
    if arch is None {
        Err(GgufConfigError::MissingKey(RequiredKey::Architecture))
    } else if arch->0 != "llama"@ {
        Err(GgufConfigError::NotLlama)
    } else if dim is None {
        Err(GgufConfigError::MissingKey(RequiredKey::EmbeddingLength))
    } else if hidden is None {
        Err(GgufConfigError::MissingKey(RequiredKey::FeedForwardLength))
    } else if layers is None {
        Err(GgufConfigError::MissingKey(RequiredKey::BlockCount))
    } else if heads is None {
        Err(GgufConfigError::MissingKey(RequiredKey::HeadCount))
    } else if eps is None {
        Err(GgufConfigError::MissingKey(RequiredKey::RmsEpsilon))
    } else if ctx is None {
        Err(GgufConfigError::MissingKey(RequiredKey::ContextLength))
    } else {
        let d = dim->0 as u32;
        let h = heads->0 as u32;
        let seq_len = ctx->0 as u32;
        let kv = match as_u64(spec_lookup(m, "llama.attention.head_count_kv"@)) {
            Some(v) => v,
            None => h as u64,
        } as u32;
        let file_type = match as_u64(spec_lookup(m, "general.file_type"@)) {
            Some(v) => v,
            None => 7u64,
        };
        if h == 0 {
            Err(GgufConfigError::ZeroHeads)
        } else if d % h != 0 {
            Err(GgufConfigError::HeadsDoNotDivide { dim: d, n_heads: h })
        } else if tokens is None {
            Err(GgufConfigError::MissingKey(RequiredKey::Tokens))
        } else if array_len(tokens) is None {
            Err(GgufConfigError::TokensNotArray)
        } else {
            match spec_gguf_format(fmt_override, file_type) {
                Err(e) => Err(e),
                Ok((q, w)) => Ok(
                    GgufLlamaConfig {
                        dim: d,
                        hidden_dim: hidden->0 as u32,
                        n_layers: layers->0 as u32,
                        n_heads: h,
                        n_kv_heads: kv,
                        head_size: (d / h) as u32,
                        seq_len,
                        ctx_len: if seq_len <= max_ctx_len { seq_len } else { max_ctx_len },
                        vocab_size: array_len(tokens)->0 as u32,
                        file_type,
                        rms_norm_eps: eps->0,
                        rope_theta: as_float(spec_lookup(m, "llama.rope.freq_base"@)),
                        rope_scaling_factor: as_float(spec_lookup(m, "llama.rope.scaling.factor"@)),
                        rope_ext_factor: as_float(spec_lookup(m, "llama.rope.scaling.ext_factor"@)),
                        rope_attn_factor: as_float(spec_lookup(m, "llama.rope.scaling.attn_factor"@)),
                        attention_scale: as_float(spec_lookup(m, "llama.attention.scale"@)),
                        rope_original_ctx_len: match as_u64(
                            spec_lookup(m, "llama.rope.scaling.original_context_length"@),
                        ) {
                            Some(v) => v,
                            None => seq_len as u64,
                        } as u32,
                        q_type: q,
                        weight_format: w,
                        group_size: 32,
                    },
                ),
            }
        }
    }
}

/// A floating-point setting taken from a metadata value: the bits of an
/// `f32` or `f64` value, and nothing for a value of another type or none.
pub open spec fn float_setting_of(v: Option<GgufVal>, f: Option<GgufFloat>) -> bool {
    match v {
        Some(GgufVal::Float32Bits(x)) => f == Some(GgufFloat::F32Bits(x)),
        Some(GgufVal::Float64Bits(x)) => f == Some(GgufFloat::F64Bits(x)),
        _ => f is None,
    }
}

/// A count taken from a metadata value: an unsigned 32- or 64-bit value,
/// truncated to 32 bits.
pub open spec fn count_of(v: Option<GgufVal>, n: u32) -> bool {
    match v {
        Some(GgufVal::Uint32(x)) => n == x,
        Some(GgufVal::Uint64(x)) => n == x as u32,
        _ => false,
    }
}

/// A LLaMA configuration carries the values the metadata holds: the
/// dimensions and counts are the (last) values of their keys, the head size
/// times the head count is the embedding length, the context length is the
/// model's capped at `max_ctx_len`, and each floating-point setting (RMS
/// epsilon, RoPE base frequency and scaling, attention scale) is exactly the
/// float stored under its key, or absent when the key holds no float.
pub proof fn lemma_llama_config_reads_metadata(
    m: Seq<(Seq<char>, GgufVal)>,
    max_ctx_len: u32,
    fmt_override: Option<WeightFormat>,
)
    ensures
        spec_llama_config(m, max_ctx_len, fmt_override) matches Ok(c) ==> {
            &&& spec_lookup(m, "general.architecture"@) == Some(GgufVal::String("llama"@))
            &&& count_of(spec_lookup(m, "llama.embedding_length"@), c.dim)
            &&& count_of(spec_lookup(m, "llama.feed_forward_length"@), c.hidden_dim)
            &&& count_of(spec_lookup(m, "llama.block_count"@), c.n_layers)
            &&& count_of(spec_lookup(m, "llama.attention.head_count"@), c.n_heads)
            &&& count_of(spec_lookup(m, "llama.context_length"@), c.seq_len)
            &&& c.n_heads > 0 && c.head_size * c.n_heads == c.dim
            &&& c.ctx_len <= c.seq_len && c.ctx_len <= max_ctx_len && (c.ctx_len == c.seq_len || c.ctx_len
                == max_ctx_len)
            &&& spec_lookup(m, "llama.attention.layer_norm_rms_epsilon"@) matches Some(GgufVal::Float32Bits(x))
                ==> c.rms_norm_eps == GgufFloat::F32Bits(x)
            &&& spec_lookup(m, "llama.attention.layer_norm_rms_epsilon"@) matches Some(GgufVal::Float64Bits(x))
                ==> c.rms_norm_eps == GgufFloat::F64Bits(x)
            &&& float_setting_of(spec_lookup(m, "llama.rope.freq_base"@), c.rope_theta)
            &&& float_setting_of(spec_lookup(m, "llama.rope.scaling.factor"@), c.rope_scaling_factor)
            &&& float_setting_of(spec_lookup(m, "llama.rope.scaling.ext_factor"@), c.rope_ext_factor)
            &&& float_setting_of(spec_lookup(m, "llama.rope.scaling.attn_factor"@), c.rope_attn_factor)
            &&& float_setting_of(spec_lookup(m, "llama.attention.scale"@), c.attention_scale)
        },
{
    if let Ok(c) = spec_llama_config(m, max_ctx_len, fmt_override) {
        let d = c.dim;
        let h = c.n_heads;
        assert(c.head_size == d / h);
        assert(d % h == 0);
        assert((d / h) * h == d) by (nonlinear_arith)
            requires
                h > 0,
                d % h == 0,
        ;
    }
}

/// What keeps GGUF metadata from describing a LLaMA model the loader runs
/// (the first failed check of [`spec_llama_config`]), if anything; a loader
/// checks it before [`llama_config`].
pub fn llama_config_problem(meta: &GgufMetadata, max_ctx_len: u32, fmt_override: Option<WeightFormat>) -> (r:
    Option<GgufConfigError>)
    ensures
        match spec_llama_config(meta.model(), max_ctx_len, fmt_override) {
            Ok(_) => r is None,
            Err(e) => r == Some(e),
        },
{
    match read_llama_config(meta, max_ctx_len, fmt_override) {
        Ok(_) => None,
        Err(e) => Some(e),
    }
}

/// Reads the LLaMA model configuration from GGUF metadata (see
/// [`spec_llama_config`]); the metadata must describe a model the loader
/// runs (see [`llama_config_problem`]).
pub fn llama_config(meta: &GgufMetadata, max_ctx_len: u32, fmt_override: Option<WeightFormat>) -> (r: Result<
    GgufLlamaConfig,
    GgufConfigError,
>)
    requires
        spec_llama_config(meta.model(), max_ctx_len, fmt_override) is Ok,
    ensures
        r == spec_llama_config(meta.model(), max_ctx_len, fmt_override),
{
    read_llama_config(meta, max_ctx_len, fmt_override)
}

/// The configuration, or the first failed check (see [`spec_llama_config`]).
fn read_llama_config(meta: &GgufMetadata, max_ctx_len: u32, fmt_override: Option<WeightFormat>) -> (r: Result<
    GgufLlamaConfig,
    GgufConfigError,
>)
    ensures
        r == spec_llama_config(meta.model(), max_ctx_len, fmt_override),
{
    let arch = match get_metadata_string(meta, "general.architecture") {
        Some(a) => a,
        None => {
            return Err(GgufConfigError::MissingKey(RequiredKey::Architecture));
        },
    };
    if !string_is(&arch, "llama") {
        return Err(GgufConfigError::NotLlama);
    }
    let dim = match get_metadata_u64(meta, "llama.embedding_length") {
        Some(v) => v as u32,
        None => {
            return Err(GgufConfigError::MissingKey(RequiredKey::EmbeddingLength));
        },
    };
    let hidden_dim = match get_metadata_u64(meta, "llama.feed_forward_length") {
        Some(v) => v as u32,
        None => {
            return Err(GgufConfigError::MissingKey(RequiredKey::FeedForwardLength));
        },
    };
    let n_layers = match get_metadata_u64(meta, "llama.block_count") {
        Some(v) => v as u32,
        None => {
            return Err(GgufConfigError::MissingKey(RequiredKey::BlockCount));
        },
    };
    let n_heads = match get_metadata_u64(meta, "llama.attention.head_count") {
        Some(v) => v as u32,
        None => {
            return Err(GgufConfigError::MissingKey(RequiredKey::HeadCount));
        },
    };
    let n_kv_heads = get_metadata_optional_u64(meta, "llama.attention.head_count_kv", n_heads as u64) as u32;
    let rms_norm_eps = match get_metadata_float(meta, "llama.attention.layer_norm_rms_epsilon") {
        Some(v) => v,
        None => {
            return Err(GgufConfigError::MissingKey(RequiredKey::RmsEpsilon));
        },
    };
    let file_type = get_metadata_optional_u64(meta, "general.file_type", 7);
    let rope_theta = get_metadata_float(meta, "llama.rope.freq_base");
    let seq_len = match get_metadata_u64(meta, "llama.context_length") {
        Some(v) => v as u32,
        None => {
            return Err(GgufConfigError::MissingKey(RequiredKey::ContextLength));
        },
    };
    if n_heads == 0 {
        return Err(GgufConfigError::ZeroHeads);
    }
    let head_size = dim / n_heads;
    if dim % n_heads != 0 {
        return Err(GgufConfigError::HeadsDoNotDivide { dim, n_heads });
    }
    let ctx_len = if seq_len <= max_ctx_len {
        seq_len
    } else {
        max_ctx_len
    };
    let vocab_size = match lookup(meta, "tokenizer.ggml.tokens") {
        None => {
            return Err(GgufConfigError::MissingKey(RequiredKey::Tokens));
        },
        Some(GgufValue::Array(arr)) => {
            proof {
                lemma_models_len(arr@);
            }
            arr.len() as u32
        },
        Some(_) => {
            return Err(GgufConfigError::TokensNotArray);
        },
    };
    let rope_scaling_factor = get_metadata_float(meta, "llama.rope.scaling.factor");
    let rope_ext_factor = get_metadata_float(meta, "llama.rope.scaling.ext_factor");
    let rope_attn_factor = get_metadata_float(meta, "llama.rope.scaling.attn_factor");
    let rope_original_ctx_len = get_metadata_optional_u64(
        meta,
        "llama.rope.scaling.original_context_length",
        seq_len as u64,
    ) as u32;
    let attention_scale = get_metadata_float(meta, "llama.attention.scale");
    if fmt_override.is_none() && file_type != 1 && file_type != 2 && file_type != 7 {
        return Err(GgufConfigError::UnsupportedFileType(file_type));
    }
    let (q_type, weight_format) = match gguf_format(fmt_override, file_type) {
        Ok(p) => p,
        Err(e) => {
            return Err(e);
        },
    };
    Ok(
        GgufLlamaConfig {
            dim,
            hidden_dim,
            n_layers,
            n_heads,
            n_kv_heads,
            head_size,
            seq_len,
            ctx_len,
            vocab_size,
            file_type,
            rms_norm_eps,
            rope_theta,
            rope_scaling_factor,
            rope_ext_factor,
            rope_attn_factor,
            attention_scale,
            rope_original_ctx_len,
            q_type,
            weight_format,
            group_size: 32,
        },
    )
}

/// The characters of each value, when every value is a string.
pub open spec fn strings_of(items: Seq<GgufVal>) -> Option<Seq<Seq<char>>> {
    if forall|i: int| 0 <= i < items.len() ==> (#[trigger] items[i]) is String {
        Some(items.map_values(|v: GgufVal| v->String_0))
    } else {
        None
    }
}

/// The views of a list of strings.
pub open spec fn string_views(v: Seq<String>) -> Seq<Seq<char>> {
    v.map_values(|s: String| s@)
}

/// The strings of an array value of strings.
fn string_array(arr: &Vec<GgufValue>) -> (r: Option<Vec<String>>)
    ensures
        match r {
            Some(v) => strings_of(models(arr@)) == Some(string_views(v@)),
            None => strings_of(models(arr@)) is None,
        },
{
    proof {
        lemma_models_len(arr@);
    }
    let mut out: Vec<String> = Vec::new();
    let mut i: usize = 0;
    while i < arr.len()
        invariant
            i <= arr@.len(),
            models(arr@).len() == arr@.len(),
            forall|j: int| 0 <= j < arr@.len() ==> #[trigger] models(arr@)[j] == arr@[j].model(),
            out@.len() == i,
            forall|j: int| 0 <= j < i ==> (#[trigger] models(arr@)[j]) is String,
            forall|j: int| 0 <= j < i ==> models(arr@)[j]->String_0 == (#[trigger] out@[j])@,
        decreases arr@.len() - i,
    {
        match &arr[i] {
            GgufValue::String(s) => {
                out.push(s.clone());
            },
            _ => {
                assert(!(models(arr@)[i as int] is String));
                return None;
            },
        }
        i = i + 1;
    }
    assert(string_views(out@) =~= models(arr@).map_values(|v: GgufVal| v->String_0));
    Some(out)
}

/// What the GGUF metadata says about the tokenizer.
#[derive(Debug)]
pub struct GgufTokenizerParts {
    pub vocab: Vec<String>,
    pub merges: Vec<String>,
    pub bos_id: u32,
    pub eos_id: u32,
    pub pre: String,
    pub add_bos_token: bool,
    pub add_space_prefix: bool,
    pub chat_template: Option<String>,
}

/// The vocabulary: `tokenizer.ggml.tokens`, an array of strings.
pub open spec fn spec_gguf_vocab(m: Seq<(Seq<char>, GgufVal)>) -> Result<Seq<Seq<char>>, GgufConfigError> {
    match spec_lookup(m, "tokenizer.ggml.tokens"@) {
        None => Err(GgufConfigError::MissingKey(RequiredKey::Tokens)),
        Some(GgufVal::Array(items)) => match strings_of(items) {
            Some(v) => Ok(v),
            None => Err(GgufConfigError::TokenNotString),
        },
        Some(_) => Err(GgufConfigError::TokensNotArray),
    }
}

/// The merge rules: `tokenizer.ggml.merges` when it is an array (of strings),
/// none otherwise.
pub open spec fn spec_gguf_merges(m: Seq<(Seq<char>, GgufVal)>) -> Result<Seq<Seq<char>>, GgufConfigError> {
    match spec_lookup(m, "tokenizer.ggml.merges"@) {
        Some(GgufVal::Array(items)) => match strings_of(items) {
            Some(v) => Ok(v),
            None => Err(GgufConfigError::TokenNotString),
        },
        _ => Ok(Seq::empty()),
    }
}

/// Reads the tokenizer settings from GGUF metadata: the vocabulary and merges
/// (see [`spec_gguf_vocab`], [`spec_gguf_merges`]), the BOS and EOS ids
/// (defaults 128000 and 128009), the pre-tokenizer name (default "default"),
/// the BOS and space-prefix flags (defaults true and false) and the chat
/// template when `tokenizer.chat_template` is a string.
pub fn gguf_tokenizer_parts(meta: &GgufMetadata) -> (r: Result<GgufTokenizerParts, GgufConfigError>)
    ensures
        match r {
            Ok(p) => {
                &&& spec_gguf_vocab(meta.model()) == Ok::<_, GgufConfigError>(string_views(p.vocab@))
                &&& spec_gguf_merges(meta.model()) == Ok::<_, GgufConfigError>(string_views(p.merges@))
                &&& p.bos_id == match as_token_id(spec_lookup(meta.model(), "tokenizer.ggml.bos_token_id"@)) {
                    Some(v) => v,
                    None => 128000u32,
                }
                &&& p.eos_id == match as_token_id(spec_lookup(meta.model(), "tokenizer.ggml.eos_token_id"@)) {
                    Some(v) => v,
                    None => 128009u32,
                }
                &&& p.pre@ == match as_string(spec_lookup(meta.model(), "tokenizer.ggml.pre"@)) {
                    Some(v) => v,
                    None => "default"@,
                }
                &&& p.add_bos_token == match as_bool(spec_lookup(meta.model(), "tokenizer.ggml.add_bos_token"@)) {
                    Some(v) => v,
                    None => true,
                }
                &&& p.add_space_prefix == match as_bool(spec_lookup(meta.model(), "tokenizer.ggml.add_space_prefix"@)) {
                    Some(v) => v,
                    None => false,
                }
                &&& match p.chat_template {
                    Some(t) => as_string(spec_lookup(meta.model(), "tokenizer.chat_template"@)) == Some(t@),
                    None => as_string(spec_lookup(meta.model(), "tokenizer.chat_template"@)) is None,
                }
            },
            Err(e) => spec_gguf_vocab(meta.model()) is Err && spec_gguf_vocab(meta.model()) == Err::<Seq<Seq<char>>, GgufConfigError>(e)
                || spec_gguf_vocab(meta.model()) is Ok && spec_gguf_merges(meta.model()) == Err::<Seq<Seq<char>>, GgufConfigError>(e),
        },
{
    let vocab = match lookup(meta, "tokenizer.ggml.tokens") {
        None => {
            return Err(GgufConfigError::MissingKey(RequiredKey::Tokens));
        },
        Some(GgufValue::Array(arr)) => match string_array(arr) {
            Some(v) => v,
            None => {
                return Err(GgufConfigError::TokenNotString);
            },
        },
        Some(_) => {
            return Err(GgufConfigError::TokensNotArray);
        },
    };
    let merges = match lookup(meta, "tokenizer.ggml.merges") {
        Some(GgufValue::Array(arr)) => match string_array(arr) {
            Some(v) => v,
            None => {
                return Err(GgufConfigError::TokenNotString);
            },
        },
        _ => {
            let v: Vec<String> = Vec::new();
            assert(string_views(v@) =~= Seq::<Seq<char>>::empty());
            v
        },
    };
    let bos_id = get_metadata_token_id(meta, "tokenizer.ggml.bos_token_id", 128000);
    let eos_id = get_metadata_token_id(meta, "tokenizer.ggml.eos_token_id", 128009);
    let pre = get_metadata_optional_string(meta, "tokenizer.ggml.pre", "default");
    let add_bos_token = get_metadata_optional_bool(meta, "tokenizer.ggml.add_bos_token", true);
    let add_space_prefix = get_metadata_optional_bool(meta, "tokenizer.ggml.add_space_prefix", false);
    let chat_template = get_metadata_string(meta, "tokenizer.chat_template");
    Ok(GgufTokenizerParts { vocab, merges, bos_id, eos_id, pre, add_bos_token, add_space_prefix, chat_template })
}

} // verus!
