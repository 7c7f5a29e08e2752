//! The integer part of token sampling: the pseudo-random source.
use vstd::prelude::*;

verus! {

/// The xorshift steps applied to the state: shifts by 12 right, 25 left
/// (dropping bits beyond 64) and 27 right, each xored in.
pub open spec fn xorshift_mix(state: u64) -> u64 {
    let a = state ^ (state >> 12u64);
    let b = a ^ (a << 25u64);
    b ^ (b >> 27u64)
}

/// The 32-bit random number a state gives: the high half of the mixed
/// state times 0x2545F4914F6CDD1D, modulo 2^64.
pub open spec fn spec_random_u32(state: u64) -> u32 {
    (((xorshift_mix(state) as nat * 0x2545F4914F6CDD1Dnat) % 0x1_0000_0000_0000_0000nat) / 0x1_0000_0000nat) as u32
}

/// The random number a state gives (see [`spec_random_u32`]).
pub fn random_u32(state: u64) -> (r: u32)
    ensures
        r == spec_random_u32(state),
{
    let mut s = state;
    s = s ^ (s >> 12u64);
    s = s ^ (s << 25u64);
    s = s ^ (s >> 27u64);
    let m = s.wrapping_mul(0x2545F4914F6CDD1Du64);
    assert(m == (s as nat * 0x2545F4914F6CDD1Dnat) % 0x1_0000_0000_0000_0000nat);
    let hi = m >> 32u64;
    assert(hi == m / 0x1_0000_0000) by (bit_vector)
        requires
            hi == m >> 32u64,
    ;
    hi as u32
}

} // verus!
