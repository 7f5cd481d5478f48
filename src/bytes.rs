//! Fixed-width integer access to byte buffers, in little- and big-endian order.
use vstd::prelude::*;

verus! {

/// The little-endian `u16` stored at `off`.
pub open spec fn le_u16(s: Seq<u8>, off: int) -> u16 {
    ((s[off] as u16) | ((s[off + 1] as u16) << 8u16)) as u16
}

/// The little-endian `u32` stored at `off`.
pub open spec fn le_u32(s: Seq<u8>, off: int) -> u32 {
    ((s[off] as u32) | ((s[off + 1] as u32) << 8u32) | ((s[off + 2] as u32) << 16u32) | ((s[off
        + 3] as u32) << 24u32)) as u32
}

/// The big-endian `u32` stored at `off`.
pub open spec fn be_u32(s: Seq<u8>, off: int) -> u32 {
    ((s[off + 3] as u32) | ((s[off + 2] as u32) << 8u32) | ((s[off + 1] as u32) << 16u32) | ((s[off]
        as u32) << 24u32)) as u32
}

/// Byte `k` (0 = least significant) of `v`.
pub open spec fn byte_of(v: u32, k: int) -> u8 {
    ((v >> ((8 * k) as u32)) & 0xFF) as u8
}

/// `s` with the four little-endian bytes of `v` written at `off`.
pub open spec fn with_le_u32(s: Seq<u8>, off: int, v: u32) -> Seq<u8> {
    s.update(off, byte_of(v, 0)).update(off + 1, byte_of(v, 1)).update(off + 2, byte_of(v, 2)).update(
        off + 3,
        byte_of(v, 3),
    )
}

/// `dst` with `src` copied over it from index `start`.
pub open spec fn spliced(dst: Seq<u8>, start: int, src: Seq<u8>) -> Seq<u8> {
    Seq::new(dst.len(), |k: int| if start <= k < start + src.len() { src[k - start] } else { dst[k] })
}

pub fn read_le_u16(s: &[u8], off: usize) -> (r: u16)
    requires
        off + 2 <= s@.len(),
    ensures
        r == le_u16(s@, off as int),
{
    (s[off] as u16) | ((s[off + 1] as u16) << 8u16)
}

pub fn read_le_u32(s: &[u8], off: usize) -> (r: u32)
    requires
        off + 4 <= s@.len(),
    ensures
        r == le_u32(s@, off as int),
{
    (s[off] as u32) | ((s[off + 1] as u32) << 8u32) | ((s[off + 2] as u32) << 16u32) | ((s[off
        + 3] as u32) << 24u32)
}

pub fn read_be_u32(s: &[u8], off: usize) -> (r: u32)
    requires
        off + 4 <= s@.len(),
    ensures
        r == be_u32(s@, off as int),
{
    let _len = s.len();
    (s[off + 3] as u32) | ((s[off + 2] as u32) << 8u32) | ((s[off + 1] as u32) << 16u32) | ((
    s[off] as u32) << 24u32)
}

pub fn write_le_u32(s: &mut Vec<u8>, off: usize, v: u32)
    requires
        off + 4 <= old(s)@.len(),
    ensures
        final(s)@ == with_le_u32(old(s)@, off as int, v),
{
    let _len = s.len();
    s.set(off, (v & 0xFF) as u8);
    s.set(off + 1, ((v >> 8u32) & 0xFF) as u8);
    s.set(off + 2, ((v >> 16u32) & 0xFF) as u8);
    s.set(off + 3, ((v >> 24u32) & 0xFF) as u8);
    proof {
        assert(v == v >> 0u32) by (bit_vector);
    }
}

} // verus!
