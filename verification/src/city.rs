//! CityHash64, Version 1, as Firefox ships it. A Gecko browser's app user
//! model id on Windows is this hash of its install directory, so it has to
//! be this exact version: 1.1 changed `HashLen0to16` and `HashLen33to64`
//! and gives a different number for the same path.
//!
//! The function follows Mozilla's vendored copy of `city.cpp` (copyright
//! 2011 Google, Inc., MIT licence). Only the 64-bit function is here. Each
//! step is a spec function and each executable step is proved equal to it.

use vstd::prelude::*;

verus! {

pub const K0: u64 = 0xc3a5c85c97cb3127;
pub const K1: u64 = 0xb492b66fbe98f273;
pub const K2: u64 = 0x9ae16a3b2f90404f;
pub const K3: u64 = 0xc949d7c7509e6557;
pub const K_MUL: u64 = 0x9ddfea08eb382d69;

/// The little-endian word of eight bytes at `at`.
#[verifier::opaque]
pub open spec fn load64(s: Seq<u8>, at: int) -> u64 {
    (s[at] as u64) | ((s[at + 1] as u64) << 8u64) | ((s[at + 2] as u64) << 16u64) | ((s[at + 3] as u64) << 24u64)
        | ((s[at + 4] as u64) << 32u64) | ((s[at + 5] as u64) << 40u64) | ((s[at + 6] as u64) << 48u64) | ((s[at
        + 7] as u64) << 56u64)
}

/// The little-endian word of four bytes at `at`.
#[verifier::opaque]
pub open spec fn load32(s: Seq<u8>, at: int) -> u64 {
    (s[at] as u64) | ((s[at + 1] as u64) << 8u64) | ((s[at + 2] as u64) << 16u64) | ((s[at + 3] as u64) << 24u64)
}

/// `val` rotated right by `shift` bits.
#[verifier::opaque]
pub open spec fn rotate(val: u64, shift: u64) -> u64 {
    (val >> shift) | (val << (64 - shift) as u64)
}

pub open spec fn shift_mix(val: u64) -> u64 {
    val ^ (val >> 47u64)
}

/// `Hash128to64`: Murmur-style mixing of two words.
#[verifier::opaque]
pub open spec fn hash_len_16(u: u64, v: u64) -> u64 {
    let a = (u ^ v).wrapping_mul(K_MUL);
    let a = a ^ (a >> 47u64);
    let b = (v ^ a).wrapping_mul(K_MUL);
    let b = b ^ (b >> 47u64);
    b.wrapping_mul(K_MUL)
}

#[verifier::opaque]
pub open spec fn hash_len_0_to_16(s: Seq<u8>) -> u64 {
    let len = s.len();
    if len > 8 {
        let a = load64(s, 0);
        let b = load64(s, len - 8);
        hash_len_16(a, rotate(b.wrapping_add(len as u64), len as u64)) ^ b
    } else if len >= 4 {
        let a = load32(s, 0);
        hash_len_16((len as u64).wrapping_add(a << 3u64), load32(s, len - 4))
    } else if len > 0 {
        let a = s[0] as u32;
        let b = s[(len / 2) as int] as u32;
        let c = s[len - 1] as u32;
        let y = a.wrapping_add(b << 8u32) as u64;
        let z = (len as u32).wrapping_add(c << 2u32) as u64;
        shift_mix(y.wrapping_mul(K2) ^ z.wrapping_mul(K3)).wrapping_mul(K2)
    } else {
        K2
    }
}

#[verifier::opaque]
pub open spec fn hash_len_17_to_32(s: Seq<u8>) -> u64 {
    let len = s.len();
    let a = load64(s, 0).wrapping_mul(K1);
    let b = load64(s, 8);
    let c = load64(s, len - 8).wrapping_mul(K2);
    let d = load64(s, len - 16).wrapping_mul(K0);
    hash_len_16(
        rotate(a.wrapping_sub(b), 43).wrapping_add(rotate(c, 30)).wrapping_add(d),
        a.wrapping_add(rotate(b ^ K3, 20)).wrapping_sub(c).wrapping_add(len as u64),
    )
}

/// A 16-byte hash of the 32 bytes at `at`, seeded with `a` and `b`.
#[verifier::opaque]
pub open spec fn weak_hash_len_32_with_seeds(s: Seq<u8>, at: int, a: u64, b: u64) -> (u64, u64) {
    let w = load64(s, at);
    let x = load64(s, at + 8);
    let y = load64(s, at + 16);
    let z = load64(s, at + 24);
    let a = a.wrapping_add(w);
    let b = rotate(b.wrapping_add(a).wrapping_add(z), 21);
    let c = a;
    let a = a.wrapping_add(x).wrapping_add(y);
    let b = b.wrapping_add(rotate(a, 44));
    (a.wrapping_add(z), b.wrapping_add(c))
}

#[verifier::opaque]
pub open spec fn hash_len_33_to_64(s: Seq<u8>) -> u64 {
    let len = s.len();
    let z = load64(s, 24);
    let a = load64(s, 0).wrapping_add((len as u64).wrapping_add(load64(s, len - 16)).wrapping_mul(K0));
    let b = rotate(a.wrapping_add(z), 52);
    let c = rotate(a, 37);
    let a = a.wrapping_add(load64(s, 8));
    let c = c.wrapping_add(rotate(a, 7));
    let a = a.wrapping_add(load64(s, 16));
    let vf = a.wrapping_add(z);
    let vs = b.wrapping_add(rotate(a, 31)).wrapping_add(c);
    let a = load64(s, 16).wrapping_add(load64(s, len - 32));
    let z = load64(s, len - 8);
    let b = rotate(a.wrapping_add(z), 52);
    let c = rotate(a, 37);
    let a = a.wrapping_add(load64(s, len - 24));
    let c = c.wrapping_add(rotate(a, 7));
    let a = a.wrapping_add(load64(s, len - 16));
    let wf = a.wrapping_add(z);
    let ws = b.wrapping_add(rotate(a, 31)).wrapping_add(c);
    let r = shift_mix(vf.wrapping_add(ws).wrapping_mul(K2).wrapping_add(wf.wrapping_add(vs).wrapping_mul(K0)));
    shift_mix(r.wrapping_mul(K0).wrapping_add(vs)).wrapping_mul(K2)
}

/// The state the long branch carries from one 64-byte chunk to the next.
#[derive(Clone, Copy, Debug)]
pub struct LongState {
    pub x: u64,
    pub y: u64,
    pub z: u64,
    pub v: (u64, u64),
    pub w: (u64, u64),
}

/// The state before the first chunk.
#[verifier::opaque]
pub open spec fn long_start(s: Seq<u8>) -> LongState {
    let len = s.len();
    let x = load64(s, 0);
    let y = load64(s, len - 16) ^ K1;
    let z = load64(s, len - 56) ^ K0;
    let v = weak_hash_len_32_with_seeds(s, len - 64, len as u64, y);
    let w = weak_hash_len_32_with_seeds(s, len - 32, (len as u64).wrapping_mul(K1), K0);
    let z = z.wrapping_add(shift_mix(v.1).wrapping_mul(K1));
    let x = rotate(z.wrapping_add(x), 39).wrapping_mul(K1);
    let y = rotate(y, 33).wrapping_mul(K1);
    LongState { x, y, z, v, w }
}

/// One 64-byte chunk at `at`.
#[verifier::opaque]
pub open spec fn long_round(s: Seq<u8>, at: int, st: LongState) -> LongState {
    let x = rotate(st.x.wrapping_add(st.y).wrapping_add(st.v.0).wrapping_add(load64(s, at + 16)), 37).wrapping_mul(K1);
    let y = rotate(st.y.wrapping_add(st.v.1).wrapping_add(load64(s, at + 48)), 42).wrapping_mul(K1);
    let x = x ^ st.w.1;
    let y = y ^ st.v.0;
    let z = rotate(st.z ^ st.w.0, 33);
    let v = weak_hash_len_32_with_seeds(s, at, st.v.1.wrapping_mul(K1), x.wrapping_add(st.w.0));
    let w = weak_hash_len_32_with_seeds(s, at + 32, z.wrapping_add(st.w.1), y);
    LongState { x: z, y, z: x, v, w }
}

/// The state after the first `n` chunks.
pub open spec fn long_rounds(s: Seq<u8>, n: nat) -> LongState
    decreases n,
{
    if n == 0 {
        long_start(s)
    } else {
        long_round(s, 64 * (n - 1), long_rounds(s, (n - 1) as nat))
    }
}

/// The hash of more than 64 bytes: every whole chunk before the last byte.
pub open spec fn hash_long(s: Seq<u8>) -> u64 {
    let st = long_rounds(s, ((s.len() - 1) / 64) as nat);
    hash_len_16(
        hash_len_16(st.v.0, st.w.0).wrapping_add(shift_mix(st.y).wrapping_mul(K1)).wrapping_add(st.z),
        hash_len_16(st.v.1, st.w.1).wrapping_add(st.x),
    )
}

/// CityHash64 of `s`.
pub open spec fn spec_city_hash_64(s: Seq<u8>) -> u64 {
    if s.len() <= 16 {
        hash_len_0_to_16(s)
    } else if s.len() <= 32 {
        hash_len_17_to_32(s)
    } else if s.len() <= 64 {
        hash_len_33_to_64(s)
    } else {
        hash_long(s)
    }
}

fn load64_at(s: &[u8], at: usize) -> (word: u64)
    requires
        at + 8 <= s@.len(),
    ensures
        word == load64(s@, at as int),
{
    proof {
        reveal(load64);
    }
    (s[at] as u64) | ((s[at + 1] as u64) << 8u64) | ((s[at + 2] as u64) << 16u64) | ((s[at + 3] as u64) << 24u64)
        | ((s[at + 4] as u64) << 32u64) | ((s[at + 5] as u64) << 40u64) | ((s[at + 6] as u64) << 48u64) | ((s[at
        + 7] as u64) << 56u64)
}

fn load32_at(s: &[u8], at: usize) -> (word: u64)
    requires
        at + 4 <= s@.len(),
    ensures
        word == load32(s@, at as int),
{
    proof {
        reveal(load32);
    }
    (s[at] as u64) | ((s[at + 1] as u64) << 8u64) | ((s[at + 2] as u64) << 16u64) | ((s[at + 3] as u64) << 24u64)
}

fn rotate_right(val: u64, shift: u64) -> (rotated: u64)
    requires
        0 < shift < 64,
    ensures
        rotated == rotate(val, shift),
{
    proof {
        reveal(rotate);
    }
    (val >> shift) | (val << (64 - shift))
}

fn shift_mix_of(val: u64) -> (mixed: u64)
    ensures
        mixed == shift_mix(val),
{
    val ^ (val >> 47u64)
}

fn hash_16(u: u64, v: u64) -> (hash: u64)
    ensures
        hash == hash_len_16(u, v),
{
    proof {
        reveal(hash_len_16);
    }
    let mut a = (u ^ v).wrapping_mul(K_MUL);
    a = a ^ (a >> 47u64);
    let mut b = (v ^ a).wrapping_mul(K_MUL);
    b = b ^ (b >> 47u64);
    b.wrapping_mul(K_MUL)
}

fn hash_0_to_16(s: &[u8]) -> (hash: u64)
    requires
        s@.len() <= 16,
    ensures
        hash == hash_len_0_to_16(s@),
{
    proof {
        reveal(hash_len_0_to_16);
    }
    let len = s.len();
    if len > 8 {
        let a = load64_at(s, 0);
        let b = load64_at(s, len - 8);
        return hash_16(a, rotate_right(b.wrapping_add(len as u64), len as u64)) ^ b;
    }
    if len >= 4 {
        let a = load32_at(s, 0);
        return hash_16((len as u64).wrapping_add(a << 3u64), load32_at(s, len - 4));
    }
    if len > 0 {
        let a = s[0] as u32;
        let b = s[len / 2] as u32;
        let c = s[len - 1] as u32;
        let y = a.wrapping_add(b << 8u32) as u64;
        let z = (len as u32).wrapping_add(c << 2u32) as u64;
        return shift_mix_of(y.wrapping_mul(K2) ^ z.wrapping_mul(K3)).wrapping_mul(K2);
    }
    K2
}

fn hash_17_to_32(s: &[u8]) -> (hash: u64)
    requires
        16 < s@.len() <= 32,
    ensures
        hash == hash_len_17_to_32(s@),
{
    proof {
        reveal(hash_len_17_to_32);
    }
    let len = s.len();
    let a = load64_at(s, 0).wrapping_mul(K1);
    let b = load64_at(s, 8);
    let c = load64_at(s, len - 8).wrapping_mul(K2);
    let d = load64_at(s, len - 16).wrapping_mul(K0);
    hash_16(
        rotate_right(a.wrapping_sub(b), 43).wrapping_add(rotate_right(c, 30)).wrapping_add(d),
        a.wrapping_add(rotate_right(b ^ K3, 20)).wrapping_sub(c).wrapping_add(len as u64),
    )
}

fn weak_hash_32(s: &[u8], at: usize, a: u64, b: u64) -> (hash: (u64, u64))
    requires
        at + 32 <= s@.len() <= usize::MAX,
    ensures
        hash == weak_hash_len_32_with_seeds(s@, at as int, a, b),
{
    proof {
        reveal(weak_hash_len_32_with_seeds);
    }
    let w = load64_at(s, at);
    let x = load64_at(s, at + 8);
    let y = load64_at(s, at + 16);
    let z = load64_at(s, at + 24);
    let a = a.wrapping_add(w);
    let b = rotate_right(b.wrapping_add(a).wrapping_add(z), 21);
    let c = a;
    let a = a.wrapping_add(x).wrapping_add(y);
    let b = b.wrapping_add(rotate_right(a, 44));
    (a.wrapping_add(z), b.wrapping_add(c))
}

fn hash_33_to_64(s: &[u8]) -> (hash: u64)
    requires
        32 < s@.len() <= 64,
    ensures
        hash == hash_len_33_to_64(s@),
{
    proof {
        reveal(hash_len_33_to_64);
    }
    let len = s.len();
    let mut z = load64_at(s, 24);
    let mut a = load64_at(s, 0).wrapping_add((len as u64).wrapping_add(load64_at(s, len - 16)).wrapping_mul(K0));
    let mut b = rotate_right(a.wrapping_add(z), 52);
    let mut c = rotate_right(a, 37);
    a = a.wrapping_add(load64_at(s, 8));
    c = c.wrapping_add(rotate_right(a, 7));
    a = a.wrapping_add(load64_at(s, 16));
    let vf = a.wrapping_add(z);
    let vs = b.wrapping_add(rotate_right(a, 31)).wrapping_add(c);
    a = load64_at(s, 16).wrapping_add(load64_at(s, len - 32));
    z = load64_at(s, len - 8);
    b = rotate_right(a.wrapping_add(z), 52);
    c = rotate_right(a, 37);
    a = a.wrapping_add(load64_at(s, len - 24));
    c = c.wrapping_add(rotate_right(a, 7));
    a = a.wrapping_add(load64_at(s, len - 16));
    let wf = a.wrapping_add(z);
    let ws = b.wrapping_add(rotate_right(a, 31)).wrapping_add(c);
    let r = shift_mix_of(vf.wrapping_add(ws).wrapping_mul(K2).wrapping_add(wf.wrapping_add(vs).wrapping_mul(K0)));
    shift_mix_of(r.wrapping_mul(K0).wrapping_add(vs)).wrapping_mul(K2)
}

/// CityHash64 of `s`.
pub fn city_hash_64(s: &[u8]) -> (hash: u64)
    ensures
        hash == spec_city_hash_64(s@),
{
    let len = s.len();
    if len <= 16 {
        return hash_0_to_16(s);
    }
    if len <= 32 {
        return hash_17_to_32(s);
    }
    if len <= 64 {
        return hash_33_to_64(s);
    }
    let mut state = long_start_of(s);
    let chunks = (len - 1) / 64;
    let mut done: usize = 0;
    while done < chunks
        invariant
            len == s@.len(),
            64 < len,
            len <= usize::MAX,
            chunks == (len - 1) / 64,
            done <= chunks,
            state == long_rounds(s@, done as nat),
        decreases chunks - done,
    {
        assert(64 * (done + 1) <= len - 1) by (nonlinear_arith)
            requires
                done < chunks,
                chunks == (len - 1) / 64,
                64 < len,
        ;
        state = long_round_at(s, 64 * done, state);
        done = done + 1;
    }
    hash_16(
        hash_16(state.v.0, state.w.0).wrapping_add(shift_mix_of(state.y).wrapping_mul(K1)).wrapping_add(state.z),
        hash_16(state.v.1, state.w.1).wrapping_add(state.x),
    )
}

fn long_start_of(s: &[u8]) -> (state: LongState)
    requires
        64 < s@.len() <= usize::MAX,
    ensures
        state == long_start(s@),
{
    proof {
        reveal(long_start);
    }
    let len = s.len();
    let x = load64_at(s, 0);
    let y = load64_at(s, len - 16) ^ K1;
    let z = load64_at(s, len - 56) ^ K0;
    let v = weak_hash_32(s, len - 64, len as u64, y);
    let w = weak_hash_32(s, len - 32, (len as u64).wrapping_mul(K1), K0);
    let z = z.wrapping_add(shift_mix_of(v.1).wrapping_mul(K1));
    let x = rotate_right(z.wrapping_add(x), 39).wrapping_mul(K1);
    let y = rotate_right(y, 33).wrapping_mul(K1);
    LongState { x, y, z, v, w }
}

fn long_round_at(s: &[u8], at: usize, st: LongState) -> (next: LongState)
    requires
        at + 64 <= s@.len() <= usize::MAX,
    ensures
        next == long_round(s@, at as int, st),
{
    proof {
        reveal(long_round);
    }
    let x = rotate_right(st.x.wrapping_add(st.y).wrapping_add(st.v.0).wrapping_add(load64_at(s, at + 16)), 37).wrapping_mul(K1);
    let y = rotate_right(st.y.wrapping_add(st.v.1).wrapping_add(load64_at(s, at + 48)), 42).wrapping_mul(K1);
    let x = x ^ st.w.1;
    let y = y ^ st.v.0;
    let z = rotate_right(st.z ^ st.w.0, 33);
    let v = weak_hash_32(s, at, st.v.1.wrapping_mul(K1), x.wrapping_add(st.w.0));
    let w = weak_hash_32(s, at + 32, z.wrapping_add(st.w.1), y);
    LongState { x: z, y, z: x, v, w }
}

} // verus!
