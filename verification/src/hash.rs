use vstd::prelude::*;
use crate::pixel::Px;
use crate::tile::Tile;

verus! {

/// Starting state of the 64-bit FNV-1a hash.
pub const FNV_OFFSET: u64 = 0xcbf29ce484222325;

/// Multiplier of the 64-bit FNV-1a hash.
pub const FNV_PRIME: u64 = 0x100000001b3;

/// One step of 64-bit FNV-1a: fold one byte into the state.
pub open spec fn fnv_byte(h: u64, b: u8) -> u64 {
    ((((h ^ (b as u64)) as int) * (FNV_PRIME as int)) % 0x1_0000_0000_0000_0000) as u64
}

/// Fold one pixel's four channel bytes into the state, in RGBA order.
pub open spec fn fnv_px(h: u64, p: Px) -> u64 {
    fnv_byte(fnv_byte(fnv_byte(fnv_byte(h, p.r), p.g), p.b), p.a)
}

/// The hash state after folding in the first `n` pixels of `s`.
pub open spec fn fnv_prefix(s: Seq<Px>, n: int) -> u64
    decreases n,
{
    if n <= 0 {
        FNV_OFFSET
    } else {
        fnv_px(fnv_prefix(s, n - 1), s[n - 1])
    }
}

/// The content hash of a pixel sequence: 64-bit FNV-1a over its raw RGBA
/// byte stream, a fixed, documented, stable function of the pixels alone.
pub open spec fn hash_of(s: Seq<Px>) -> u64 {
    fnv_prefix(s, s.len() as int)
}

/// One FNV-1a step over a byte, with the 64-bit wrap-around carried out
/// in 128-bit arithmetic.
fn fnv_step(h: u64, b: u8) -> (r: u64)
    ensures
        r == fnv_byte(h, b),
{
    let x: u64 = h ^ (b as u64);
    proof {
        assert((x as int) * (FNV_PRIME as int) < 0x1_0000_0000_0000_0000_0000_0000_0000_0000)
            by (nonlinear_arith)
            requires
                x <= 0xffff_ffff_ffff_ffff,
        ;
    }
    let wide: u128 = (x as u128) * (FNV_PRIME as u128);
    (wide % 0x1_0000_0000_0000_0000u128) as u64
}

/// The content hash of a tile: 64-bit FNV-1a over every pixel's full RGBA
/// value in row-major order.
pub fn calculate_hash(buffer: &Tile) -> (h: u64)
    ensures
        h == hash_of(buffer.pixels@),
{
    let mut h: u64 = FNV_OFFSET;
    let n: usize = buffer.pixels.len();
    let mut i: usize = 0;
    while i < n
        invariant
            i <= n,
            n == buffer.pixels@.len(),
            h == fnv_prefix(buffer.pixels@, i as int),
        decreases n - i,
    {
        let p = buffer.pixels[i];
        h = fnv_step(h, p.r);
        h = fnv_step(h, p.g);
        h = fnv_step(h, p.b);
        h = fnv_step(h, p.a);
        i = i + 1;
    }
    h
}

} // verus!
