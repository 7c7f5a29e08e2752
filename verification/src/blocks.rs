//! The integer contents of stored weight tensors: quantized values and the
//! bit patterns of their half- or single-precision scales, read from the
//! bytes of a model file. Turning bit patterns into floats is the caller's.
use vstd::prelude::*;

use crate::util::{le_u16_at, le_u32_at, read_u16_le, read_u32_le};

verus! {

// ---------------------------------------------------------------------------
// Q8_0 blocks: a half-precision scale, then 32 signed bytes
// ---------------------------------------------------------------------------

/// The number of 32-value blocks holding `n` values.
pub open spec fn blocks_of(n: nat) -> nat {
    (n + 31) / 32
}

proof fn lemma_blocks_of(n: nat)
    ensures
        32 * blocks_of(n) >= n,
        32 * blocks_of(n) < n + 32,
{
}

/// The bytes `n` Q8_0 values take: 34 per block, except that only the
/// values present are read from the last block.
pub open spec fn q8_0_span(n: nat) -> nat {
    n + 2 * blocks_of(n)
}

/// Quantized value `idx` of a Q8_0 tensor starting at `start`: the byte at
/// offset `idx % 32` after the 2-byte scale of block `idx / 32`.
pub open spec fn q8_0_value(d: Seq<u8>, start: int, idx: int) -> i8 {
    d[start + (idx / 32) * 34 + 2 + idx % 32] as i8
}

/// The bits of the scale of block `b` of a Q8_0 tensor.
pub open spec fn q8_0_scale_bits(d: Seq<u8>, start: int, b: int) -> u16 {
    le_u16_at(d, start + b * 34) as u16
}

/// The bytes `n` Q8_0 values take, when that fits a `usize`.
pub fn q8_0_span_of(n: usize) -> (r: Option<usize>)
    ensures
        match r {
            Some(s) => s == q8_0_span(n as nat),
            None => q8_0_span(n as nat) > usize::MAX,
        },
{
    let blocks = n / 32 + if n % 32 == 0 {
        0
    } else {
        1
    };
    assert(blocks == blocks_of(n as nat));
    if blocks > (usize::MAX - n) / 2 {
        None
    } else {
        Some(n + 2 * blocks)
    }
}

/// Unpacks `n` Q8_0 values starting at `start`: the signed quantized
/// values, and the scale bits of each block.
pub fn unpack_q8_0(d: &[u8], start: usize, n: usize) -> (r: (Vec<i8>, Vec<u16>))
    requires
        start + q8_0_span(n as nat) <= d@.len(),
    ensures
        r.0@.len() == n,
        r.1@.len() == blocks_of(n as nat),
        forall|i: int| 0 <= i < n ==> #[trigger] r.0@[i] == q8_0_value(d@, start as int, i),
        forall|b: int| 0 <= b < blocks_of(n as nat) ==> #[trigger] r.1@[b] == q8_0_scale_bits(d@, start as int, b),
{
    let mut vals: Vec<i8> = Vec::new();
    let mut scales: Vec<u16> = Vec::new();
    let ghost nb = blocks_of(n as nat);
    proof {
        lemma_blocks_of(n as nat);
    }
    let len = d.len();
    let mut b: usize = 0;
    while vals.len() < n
        invariant
            len == d@.len(),
            32 * nb >= n,
            32 * nb < n + 32,
            start + q8_0_span(n as nat) <= d@.len(),
            nb == blocks_of(n as nat),
            vals@.len() == 32 * b || vals@.len() == n,
            vals@.len() <= n,
            vals@.len() == n ==> b == nb,
            vals@.len() < n ==> vals@.len() == 32 * b,
            scales@.len() == b,
            forall|i: int| 0 <= i < vals@.len() ==> #[trigger] vals@[i] == q8_0_value(d@, start as int, i),
            forall|k: int| 0 <= k < b ==> #[trigger] scales@[k] == q8_0_scale_bits(d@, start as int, k),
        decreases n - vals@.len(),
    {
        assert(b < nb);
        assert(b * 34 + 2 <= q8_0_span(n as nat));
        let block_start = start + b * 34;
        scales.push(read_u16_le(d, block_start));
        let mut j: usize = 0;
        while j < 32 && vals.len() < n
            invariant
                len == d@.len(),
                32 * nb >= n,
                32 * nb < n + 32,
                start + q8_0_span(n as nat) <= d@.len(),
                block_start == start + b * 34,
                b < nb,
                nb == blocks_of(n as nat),
                j <= 32,
                vals@.len() == 32 * b + j,
                vals@.len() <= n,
                forall|i: int| 0 <= i < vals@.len() ==> #[trigger] vals@[i] == q8_0_value(d@, start as int, i),
            decreases 32 - j,
        {
            let idx = 32 * b + j;
            assert(idx / 32 == b && idx % 32 == j);
            assert(b * 34 + 2 + j < q8_0_span(n as nat));
            vals.push(d[block_start + 2 + j] as i8);
            j = j + 1;
        }
        b = b + 1;
    }
    (vals, scales)
}

// ---------------------------------------------------------------------------
// Q4_0 blocks: a half-precision scale, then 16 bytes of two 4-bit values
// ---------------------------------------------------------------------------

/// The bytes `n` Q4_0 values take: 18 per block.
pub open spec fn q4_0_span(n: nat) -> nat {
    18 * blocks_of(n)
}

/// Quantized value `idx` of a Q4_0 tensor starting at `start`, as ggml
/// lays it out: in block `idx / 32`, the 16 bytes after the scale hold
/// values `j` in their low and values `j + 16` in their high four bits
/// (`j` in 0..16), each stored with an offset of 8, so values are -8..=7.
pub open spec fn q4_0_value(d: Seq<u8>, start: int, idx: int) -> i8 {
    let j = idx % 32;
    let byte = d[start + (idx / 32) * 18 + 2 + j % 16];
    if j < 16 {
        ((byte % 16) - 8) as i8
    } else {
        ((byte / 16) - 8) as i8
    }
}

/// The bits of the scale of block `b` of a Q4_0 tensor.
pub open spec fn q4_0_scale_bits(d: Seq<u8>, start: int, b: int) -> u16 {
    le_u16_at(d, start + b * 18) as u16
}

/// The bytes `n` Q4_0 values take, when that fits a `usize`.
pub fn q4_0_span_of(n: usize) -> (r: Option<usize>)
    ensures
        match r {
            Some(s) => s == q4_0_span(n as nat),
            None => q4_0_span(n as nat) > usize::MAX,
        },
{
    let blocks = n / 32 + if n % 32 == 0 {
        0
    } else {
        1
    };
    assert(blocks == blocks_of(n as nat));
    if blocks > usize::MAX / 18 {
        None
    } else {
        Some(18 * blocks)
    }
}

/// Unpacks `n` Q4_0 values starting at `start`: the signed 4-bit values
/// (see [`q4_0_value`]), and the scale bits of each block.
pub fn unpack_q4_0(d: &[u8], start: usize, n: usize) -> (r: (Vec<i8>, Vec<u16>))
    requires
        start + q4_0_span(n as nat) <= d@.len(),
    ensures
        r.0@.len() == n,
        r.1@.len() == blocks_of(n as nat),
        forall|i: int| 0 <= i < n ==> #[trigger] r.0@[i] == q4_0_value(d@, start as int, i),
        forall|b: int| 0 <= b < blocks_of(n as nat) ==> #[trigger] r.1@[b] == q4_0_scale_bits(d@, start as int, b),
{
    let mut vals: Vec<i8> = Vec::new();
    let mut scales: Vec<u16> = Vec::new();
    let ghost nb = blocks_of(n as nat);
    proof {
        lemma_blocks_of(n as nat);
    }
    let len = d.len();
    let mut b: usize = 0;
    while vals.len() < n
        invariant
            len == d@.len(),
            32 * nb >= n,
            32 * nb < n + 32,
            start + q4_0_span(n as nat) <= d@.len(),
            nb == blocks_of(n as nat),
            vals@.len() <= n,
            vals@.len() == n ==> b == nb,
            vals@.len() < n ==> vals@.len() == 32 * b,
            scales@.len() == b,
            forall|i: int| 0 <= i < vals@.len() ==> #[trigger] vals@[i] == q4_0_value(d@, start as int, i),
            forall|k: int| 0 <= k < b ==> #[trigger] scales@[k] == q4_0_scale_bits(d@, start as int, k),
        decreases n - vals@.len(),
    {
        assert(b < nb);
        assert(b * 18 + 18 <= q4_0_span(n as nat));
        let block_start = start + b * 18;
        scales.push(read_u16_le(d, block_start));
        let mut j: usize = 0;
        while j < 32 && vals.len() < n
            invariant
                len == d@.len(),
                start + q4_0_span(n as nat) <= d@.len(),
                block_start == start + b * 18,
                block_start + 18 <= d@.len(),
                b < nb,
                nb == blocks_of(n as nat),
                j <= 32,
                vals@.len() == 32 * b + j,
                vals@.len() <= n,
                forall|i: int| 0 <= i < vals@.len() ==> #[trigger] vals@[i] == q4_0_value(d@, start as int, i),
            decreases 32 - j,
        {
            let idx = 32 * b + j;
            assert(idx / 32 == b && idx % 32 == j);
            let byte = d[block_start + 2 + j % 16];
            let v: u8 = if j < 16 {
                byte % 16
            } else {
                byte / 16
            };
            vals.push((v as i8) - 8);
            j = j + 1;
        }
        b = b + 1;
    }
    (vals, scales)
}

// ---------------------------------------------------------------------------
// Plain arrays of half- and single-precision values
// ---------------------------------------------------------------------------

/// Reads `n` little-endian 16-bit words starting at `start`.
pub fn read_u16_words(d: &[u8], start: usize, n: usize) -> (r: Vec<u16>)
    requires
        start + 2 * n <= d@.len(),
    ensures
        r@.len() == n,
        forall|i: int| 0 <= i < n ==> #[trigger] r@[i] == le_u16_at(d@, start + 2 * i),
{
    let mut out: Vec<u16> = Vec::new();
    let len = d.len();
    let mut i: usize = 0;
    while i < n
        invariant
            len == d@.len(),
            start + 2 * n <= d@.len(),
            i <= n,
            out@.len() == i,
            forall|k: int| 0 <= k < i ==> #[trigger] out@[k] == le_u16_at(d@, start + 2 * k),
        decreases n - i,
    {
        out.push(read_u16_le(d, start + 2 * i));
        i = i + 1;
    }
    out
}

/// Reads `n` little-endian 32-bit words starting at `start`.
pub fn read_u32_words(d: &[u8], start: usize, n: usize) -> (r: Vec<u32>)
    requires
        start + 4 * n <= d@.len(),
    ensures
        r@.len() == n,
        forall|i: int| 0 <= i < n ==> #[trigger] r@[i] == le_u32_at(d@, start + 4 * i),
{
    let mut out: Vec<u32> = Vec::new();
    let len = d.len();
    let mut i: usize = 0;
    while i < n
        invariant
            len == d@.len(),
            start + 4 * n <= d@.len(),
            i <= n,
            out@.len() == i,
            forall|k: int| 0 <= k < i ==> #[trigger] out@[k] == le_u32_at(d@, start + 4 * k),
        decreases n - i,
    {
        out.push(read_u32_le(d, start + 4 * i));
        i = i + 1;
    }
    out
}

/// Reads `n` bytes starting at `start` as signed values.
pub fn read_i8_values(d: &[u8], start: usize, n: usize) -> (r: Vec<i8>)
    requires
        start + n <= d@.len(),
    ensures
        r@.len() == n,
        forall|i: int| 0 <= i < n ==> #[trigger] r@[i] == d@[start + i] as i8,
{
    let mut out: Vec<i8> = Vec::new();
    let len = d.len();
    let mut i: usize = 0;
    while i < n
        invariant
            len == d@.len(),
            start + n <= d@.len(),
            i <= n,
            out@.len() == i,
            forall|k: int| 0 <= k < i ==> #[trigger] out@[k] == d@[start + k] as i8,
        decreases n - i,
    {
        out.push(d[start + i] as i8);
        i = i + 1;
    }
    out
}

// ---------------------------------------------------------------------------
// Packed signed bytes, four to a 32-bit word
// ---------------------------------------------------------------------------

/// Value `idx` of a `rows x cols` matrix whose rows are stored as
/// `cols / 4` little-endian 32-bit words of four signed bytes each, from
/// `start`: the stored byte for the first `4 * (cols / 4)` columns of a row,
/// 0 for the columns after them.
pub open spec fn packed_value(d: Seq<u8>, start: int, cols: int, idx: int) -> i8 {
    let r = idx / cols;
    let c = idx % cols;
    if c < (cols / 4) * 4 {
        d[start + r * ((cols / 4) * 4) + c] as i8
    } else {
        0
    }
}

/// Unpacks a `rows x cols` matrix of packed signed bytes (see
/// [`packed_value`]).
pub fn unpack_packed_i8(d: &[u8], start: usize, rows: usize, cols: usize) -> (r: Vec<i8>)
    requires
        cols > 0,
        rows * cols <= usize::MAX,
        start + rows * ((cols / 4) * 4) <= d@.len(),
    ensures
        r@.len() == rows * cols,
        forall|i: int| 0 <= i < rows * cols ==> #[trigger] r@[i] == packed_value(d@, start as int, cols as int, i),
{
    let width = (cols / 4) * 4;
    let len = d.len();
    let mut out: Vec<i8> = Vec::new();
    let mut row: usize = 0;
    let mut row_base: usize = 0;
    while row < rows
        invariant
            len == d@.len(),
            cols > 0,
            width == (cols / 4) * 4,
            width <= cols,
            rows * cols <= usize::MAX,
            start + rows * width <= d@.len(),
            row <= rows,
            row_base == row * width,
            out@.len() == row * cols,
            forall|i: int| 0 <= i < out@.len() ==> #[trigger] out@[i] == packed_value(d@, start as int, cols as int, i),
        decreases rows - row,
    {
        assert(row_base + width <= rows * width) by (nonlinear_arith)
            requires
                row_base == row * width,
                row < rows,
        ;
        assert((row + 1) * cols <= rows * cols) by (nonlinear_arith)
            requires
                row < rows,
        ;
        let mut c: usize = 0;
        while c < cols
            invariant
                len == d@.len(),
                cols > 0,
                width == (cols / 4) * 4,
                width <= cols,
                start + rows * width <= d@.len(),
                row_base + width <= rows * width,
                row < rows,
                (row + 1) * cols <= rows * cols,
                rows * cols <= usize::MAX,
                row_base == row * width,
                c <= cols,
                out@.len() == row * cols + c,
                forall|i: int| 0 <= i < out@.len() ==> #[trigger] out@[i] == packed_value(d@, start as int, cols as int, i),
            decreases cols - c,
        {
            let ghost idx = row * cols + c;
            assert(idx / (cols as int) == row && idx % (cols as int) == c) by {
                vstd::arithmetic::div_mod::lemma_fundamental_div_mod_converse(idx, cols as int, row as int, c as int);
            }
            assert(row * cols + c < (row + 1) * cols) by (nonlinear_arith)
                requires
                    c < cols,
            ;
            if c < width {
                out.push(d[start + row_base + c] as i8);
            } else {
                out.push(0);
            }
            c = c + 1;
        }
        assert((row + 1) * width == row * width + width) by (nonlinear_arith);
        assert((row + 1) * cols == row * cols + cols) by (nonlinear_arith);
        row_base = row_base + width;
        row = row + 1;
    }
    out
}

} // verus!
