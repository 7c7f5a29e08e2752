use vstd::prelude::*;

verus! {

// ---------------------------------------------------------------------------
// Little-endian integers
// ---------------------------------------------------------------------------

/// The unsigned value of the two bytes at `off`, least significant first.
pub open spec fn le_u16_at(s: Seq<u8>, off: int) -> int {
    s[off] + 256 * s[off + 1]
}

/// The unsigned value of the four bytes at `off`, least significant first.
pub open spec fn le_u32_at(s: Seq<u8>, off: int) -> int {
    le_u16_at(s, off) + 65536 * le_u16_at(s, off + 2)
}

/// The unsigned value of the eight bytes at `off`, least significant first.
pub open spec fn le_u64_at(s: Seq<u8>, off: int) -> int {
    le_u32_at(s, off) + 4294967296 * le_u32_at(s, off + 4)
}

/// Reads a little-endian `u16` at `off`.
pub fn read_u16_le(s: &[u8], off: usize) -> (r: u16)
    requires
        off + 2 <= s.len(),
    ensures
        r == le_u16_at(s@, off as int),
{
    let b0 = s[off];
    let b1 = s[off + 1];
    let r = (b0 as u16) | ((b1 as u16) << 8u16);
    assert(r == b0 + 256 * b1) by (bit_vector)
        requires
            r == (b0 as u16) | ((b1 as u16) << 8u16),
    ;
    r
}

/// Reads a little-endian `u32` at `off`.
pub fn read_u32_le(s: &[u8], off: usize) -> (r: u32)
    requires
        off + 4 <= s.len(),
    ensures
        r == le_u32_at(s@, off as int),
{
    let lo = read_u16_le(s, off);
    let hi = read_u16_le(s, off + 2);
    let r = (lo as u32) | ((hi as u32) << 16u32);
    assert(r == lo + 65536 * hi) by (bit_vector)
        requires
            r == (lo as u32) | ((hi as u32) << 16u32),
    ;
    r
}

/// Reads a little-endian `u64` at `off`.
pub fn read_u64_le(s: &[u8], off: usize) -> (r: u64)
    requires
        off + 8 <= s.len(),
    ensures
        r == le_u64_at(s@, off as int),
{
    let lo = read_u32_le(s, off);
    let hi = read_u32_le(s, off + 4);
    let r = (lo as u64) | ((hi as u64) << 32u64);
    assert(r == lo + 4294967296 * hi) by (bit_vector)
        requires
            r == (lo as u64) | ((hi as u64) << 32u64),
    ;
    r
}

/// Decodes a 4-byte little-endian slice into a `u32`.
pub fn slice_to_u32(slice: &[u8]) -> (r: u32)
    requires
        slice@.len() == 4,
    ensures
        r == le_u32_at(slice@, 0),
{
    read_u32_le(slice, 0)
}

// ---------------------------------------------------------------------------
// SIMD level
// ---------------------------------------------------------------------------

/// The widest vector instruction set usable on the running machine.
#[derive(Debug, Clone, Copy, PartialEq, Eq, Structural)]
pub enum SimdLevel {
    Avx512,
    Avx2,
    Scalar,
}

/// The level chosen from the two feature flags: AVX-512F wins over AVX2,
/// and with neither the scalar fallback is used.
pub open spec fn spec_simd_level(has_avx512f: bool, has_avx2: bool) -> SimdLevel {
    if has_avx512f {
        SimdLevel::Avx512
    } else if has_avx2 {
        SimdLevel::Avx2
    } else {
        SimdLevel::Scalar
    }
}

/// Picks the SIMD level from the CPU features the running machine reports
/// (the console detects them, with the operating system's support, and
/// passes them here).
pub fn simd_level_for(has_avx512f: bool, has_avx2: bool) -> (r: SimdLevel)
    ensures
        r == spec_simd_level(has_avx512f, has_avx2),
{
    if has_avx512f {
        SimdLevel::Avx512
    } else if has_avx2 {
        SimdLevel::Avx2
    } else {
        SimdLevel::Scalar
    }
}

// ---------------------------------------------------------------------------
// Matrix dump layout
// ---------------------------------------------------------------------------

/// Which part of a memory dump to show.
#[derive(Debug, Clone, Copy, PartialEq, Eq, Structural)]
pub enum PrintRange {
    Head,
    Tail,
    HeadNTail,
}

/// How much of a matrix to show.
#[derive(Debug, Clone, Copy, PartialEq, Eq, Structural)]
pub enum PrintFormat {
    Full,
    Summary1,
}

/// Element type of a raw matrix dump.
#[derive(Debug, Clone, Copy, PartialEq, Eq, Structural)]
pub enum MatrixPrecision {
    F32,
    F16,
    I16,
    U16,
    I8,
    U8,
}

impl MatrixPrecision {
    /// Size of one element in bytes.
    pub open spec fn spec_size(self) -> nat {
        match self {
            MatrixPrecision::F32 => 4,
            MatrixPrecision::F16 | MatrixPrecision::I16 | MatrixPrecision::U16 => 2,
            MatrixPrecision::I8 | MatrixPrecision::U8 => 1,
        }
    }

    /// Size of one element in bytes.
    pub fn size(&self) -> (r: usize)
        ensures
            r == self.spec_size(),
    {
        match self {
            MatrixPrecision::F32 => 4,
            MatrixPrecision::F16 | MatrixPrecision::I16 | MatrixPrecision::U16 => 2,
            MatrixPrecision::I8 | MatrixPrecision::U8 => 1,
        }
    }
}

/// The value that marks an elided stretch in a list of printed indices; no
/// index of a printed axis reaches it.
pub const ELLIPSIS_INDEX: usize = usize::MAX;

/// The indices printed along one axis of `count` entries: all of them in the
/// full format or when there are at most `limit`; otherwise the first `keep`,
/// the ellipsis marker, and the last `keep`.
pub open spec fn spec_print_indices(format: PrintFormat, count: nat, limit: nat, keep: nat) -> Seq<usize> {
    if format == PrintFormat::Full || count <= limit {
        Seq::new(count, |i: int| i as usize)
    } else {
        Seq::new(keep, |i: int| i as usize) + seq![ELLIPSIS_INDEX] + Seq::new(
            keep,
            |i: int| (count - keep + i) as usize,
        )
    }
}

/// Indices printed along one axis of a matrix dump (see `spec_print_indices`).
pub fn print_indices(format: PrintFormat, count: usize, limit: usize, keep: usize) -> (r: Vec<usize>)
    requires
        keep <= limit,
    ensures
        r@ == spec_print_indices(format, count as nat, limit as nat, keep as nat),
{
    let mut r: Vec<usize> = Vec::new();
    if format == PrintFormat::Full || count <= limit {
        let mut i: usize = 0;
        while i < count
            invariant
                i <= count,
                r@ == Seq::new(i as nat, |j: int| j as usize),
            decreases count - i,
        {
            r.push(i);
            i += 1;
        }
        assert(r@ =~= spec_print_indices(format, count as nat, limit as nat, keep as nat));
    } else {
        let mut i: usize = 0;
        while i < keep
            invariant
                i <= keep,
                r@ == Seq::new(i as nat, |j: int| j as usize),
            decreases keep - i,
        {
            r.push(i);
            i += 1;
        }
        let ghost head = r@;
        r.push(ELLIPSIS_INDEX);
        let mut k: usize = 0;
        while k < keep
            invariant
                k <= keep,
                keep <= limit < count,
                head == Seq::new(keep as nat, |j: int| j as usize),
                r@ == head + seq![ELLIPSIS_INDEX] + Seq::new(k as nat, |j: int| (count - keep + j) as usize),
            decreases keep - k,
        {
            r.push(count - keep + k);
            k += 1;
            assert(r@ =~= head + seq![ELLIPSIS_INDEX] + Seq::new(k as nat, |j: int| (count - keep + j) as usize));
        }
        assert(r@ =~= spec_print_indices(format, count as nat, limit as nat, keep as nat));
    }
    r
}

/// The byte ranges a memory dump of `len` bytes shows for a range choice
/// of `n` bytes: the first `n`, the last `n`, or both.
pub open spec fn spec_dump_ranges(len: nat, range: PrintRange, n: nat) -> Seq<(usize, usize)> {
    match range {
        PrintRange::Head => seq![(0usize, n as usize)],
        PrintRange::Tail => seq![((len - n) as usize, len as usize)],
        PrintRange::HeadNTail => seq![(0usize, n as usize), ((len - n) as usize, len as usize)],
    }
}

/// The byte ranges a memory dump shows (see [`spec_dump_ranges`]).
pub fn dump_ranges(len: usize, range: PrintRange, n: usize) -> (r: Vec<(usize, usize)>)
    requires
        n <= len,
    ensures
        r@ == spec_dump_ranges(len as nat, range, n as nat),
{
    let mut out: Vec<(usize, usize)> = Vec::new();
    match range {
        PrintRange::Head => {
            out.push((0, n));
        },
        PrintRange::Tail => {
            out.push((len - n, len));
        },
        PrintRange::HeadNTail => {
            out.push((0, n));
            out.push((len - n, len));
        },
    }
    assert(out@ =~= spec_dump_ranges(len as nat, range, n as nat));
    out
}

} // verus!
