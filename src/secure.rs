//! The KEY1 transform of the secure area, block by block.
use vstd::prelude::*;
use crate::bytes::{byte_of, le_u32, read_le_u32, with_le_u32, write_le_u32};
use crate::key1::{decrypt, encrypt, lemma_round_trip, KeyBuffer, KEY_BUF_WORDS};

verus! {

/// Each half of the 8-byte marker of a plaintext (or blank) secure area.
pub const PLAIN_MARKER: u32 = 0xE7FF_DEFF;

/// The secure area starts with the plaintext marker.
pub open spec fn is_plain(sa: Seq<u8>) -> bool {
    le_u32(sa, 0) == PLAIN_MARKER && le_u32(sa, 4) == PLAIN_MARKER
}

/// The string that leads an encrypted secure area once deciphered.
pub open spec fn encryobj() -> Seq<u8> {
    seq![0x65u8, 0x6E, 0x63, 0x72, 0x79, 0x4F, 0x62, 0x6A]
}

/// Block `b` of `sa` as a little-endian word pair, enciphered or deciphered.
pub open spec fn block_result(kb: Seq<u32>, sa: Seq<u8>, b: int, dec: bool) -> (u32, u32) {
    let blk = (le_u32(sa, 8 * b), le_u32(sa, 8 * b + 4));
    if dec {
        decrypt(kb, blk)
    } else {
        encrypt(kb, blk)
    }
}

pub open spec fn crypt_byte(kb: Seq<u32>, sa: Seq<u8>, j: int, dec: bool) -> u8 {
    let r = block_result(kb, sa, j / 8, dec);
    if j % 8 < 4 {
        byte_of(r.0, j % 4)
    } else {
        byte_of(r.1, j % 4)
    }
}

/// Every 8-byte block of `sa` enciphered (`dec` false) or deciphered.
pub open spec fn crypt_blocks(kb: Seq<u32>, sa: Seq<u8>, dec: bool) -> Seq<u8> {
    Seq::new(sa.len(), |j: int| crypt_byte(kb, sa, j, dec))
}

/// The first 8-byte block of `sa` enciphered or deciphered, the rest kept.
pub open spec fn crypt_first(kb: Seq<u32>, sa: Seq<u8>, dec: bool) -> Seq<u8> {
    Seq::new(sa.len(), |j: int| if j < 8 { crypt_byte(kb, sa, j, dec) } else { sa[j] })
}

/// A plaintext secure area encrypted for a cold boot: the marker replaced by
/// `encryObj`, every block enciphered at level 3, then the first block again
/// at level 2.
pub open spec fn encrypt_area(kb2: Seq<u32>, kb3: Seq<u32>, sa: Seq<u8>) -> Seq<u8> {
    crypt_first(kb2, crypt_blocks(kb3, encryobj() + sa.subrange(8, sa.len() as int), false), false)
}

/// An encrypted secure area deciphered for a direct boot: the first block at
/// level 2, then every block at level 3.
pub open spec fn decrypt_area(kb2: Seq<u32>, kb3: Seq<u32>, sa: Seq<u8>) -> Seq<u8> {
    crypt_blocks(kb3, crypt_first(kb2, sa, true), true)
}

pub fn is_plain_area(sa: &Vec<u8>) -> (r: bool)
    requires
        sa@.len() >= 8,
    ensures
        r == is_plain(sa@),
{
    read_le_u32(sa.as_slice(), 0) == PLAIN_MARKER && read_le_u32(sa.as_slice(), 4) == PLAIN_MARKER
}

fn crypt_block<const L: bool>(kb: &KeyBuffer<L>, sa: &mut Vec<u8>, off: usize, dec: bool)
    requires
        kb.wf(),
        off % 8 == 0,
        off + 8 <= old(sa)@.len(),
    ensures
        final(sa)@.len() == old(sa)@.len(),
        forall|j: int|
            0 <= j < old(sa)@.len() ==> #[trigger] final(sa)@[j] == if off <= j < off + 8 {
                crypt_byte(kb.words(), old(sa)@, j, dec)
            } else {
                old(sa)@[j]
            },
{
    let _len = sa.len();
    let blk = [read_le_u32(sa.as_slice(), off), read_le_u32(sa.as_slice(), off + 4)];
    let r = if dec {
        kb.decrypt_64_bit(blk)
    } else {
        kb.encrypt_64_bit(blk)
    };
    write_le_u32(sa, off, r[0]);
    write_le_u32(sa, off + 4, r[1]);
}

/// Enciphers or deciphers the first block of `sa`.
pub fn crypt_first_block<const L: bool>(kb: &KeyBuffer<L>, sa: &mut Vec<u8>, dec: bool)
    requires
        kb.wf(),
        old(sa)@.len() >= 8,
    ensures
        final(sa)@ == crypt_first(kb.words(), old(sa)@, dec),
{
    crypt_block(kb, sa, 0, dec);
    assert(sa@ =~= crypt_first(kb.words(), old(sa)@, dec));
}

/// Enciphers or deciphers every block of `sa`.
pub fn crypt_all_blocks<const L: bool>(kb: &KeyBuffer<L>, sa: &mut Vec<u8>, dec: bool)
    requires
        kb.wf(),
        old(sa)@.len() % 8 == 0,
    ensures
        final(sa)@ == crypt_blocks(kb.words(), old(sa)@, dec),
{
    let ghost orig = sa@;
    let n = sa.len();
    let mut off: usize = 0;
    while off < n
        invariant
            kb.wf(),
            n == orig.len(),
            n % 8 == 0,
            off % 8 == 0,
            off <= n,
            sa@.len() == n,
            forall|j: int| 0 <= j < off ==> #[trigger] sa@[j] == crypt_byte(kb.words(), orig, j, dec),
            forall|j: int| off <= j < n ==> #[trigger] sa@[j] == orig[j],
        decreases n - off,
    {
        let ghost before = sa@;
        crypt_block(kb, sa, off, dec);
        proof {
            assert(le_u32(before, off as int) == le_u32(orig, off as int));
            assert(le_u32(before, off + 4) == le_u32(orig, off + 4));
            assert forall|j: int| off <= j < off + 8 implies crypt_byte(kb.words(), before, j, dec)
                == crypt_byte(kb.words(), orig, j, dec) by {
                assert(j / 8 == off / 8);
            }
        }
        off += 8;
    }
    assert(sa@ =~= crypt_blocks(kb.words(), orig, dec));
}

proof fn lemma_byte_le(s: Seq<u8>, off: int, v: u32)
    requires
        0 <= off,
        off + 4 <= s.len(),
        s[off] == byte_of(v, 0),
        s[off + 1] == byte_of(v, 1),
        s[off + 2] == byte_of(v, 2),
        s[off + 3] == byte_of(v, 3),
    ensures
        le_u32(s, off) == v,
{
    assert(((((v >> 0u32) & 0xFF) as u8) as u32 | (((((v >> 8u32) & 0xFF) as u8) as u32) << 8u32)
        | (((((v >> 16u32) & 0xFF) as u8) as u32) << 16u32) | (((((v >> 24u32) & 0xFF) as u8) as u32)
        << 24u32)) == v) by (bit_vector);
}

proof fn lemma_le_byte(s: Seq<u8>, off: int, k: int)
    requires
        0 <= off,
        off + 4 <= s.len(),
        0 <= k < 4,
    ensures
        byte_of(le_u32(s, off), k) == s[off + k],
{
    let (a, b, c, d) = (s[off], s[off + 1], s[off + 2], s[off + 3]);
    let v = le_u32(s, off);
    assert(((v >> 0u32) & 0xFF) as u8 == a && ((v >> 8u32) & 0xFF) as u8 == b && ((v >> 16u32)
        & 0xFF) as u8 == c && ((v >> 24u32) & 0xFF) as u8 == d) by (bit_vector)
        requires
            v == ((a as u32) | ((b as u32) << 8u32) | ((c as u32) << 16u32) | ((d as u32)
                << 24u32)),
    ;
}

/// Block `b` of the transformed bytes reads back as the cipher result.
proof fn lemma_block_reads_back(kb: Seq<u32>, s: Seq<u8>, t: Seq<u8>, b: int, dec: bool)
    requires
        0 <= b,
        8 * b + 8 <= s.len(),
        t.len() == s.len(),
        forall|j: int| 8 * b <= j < 8 * b + 8 ==> #[trigger] t[j] == crypt_byte(kb, s, j, dec),
    ensures
        le_u32(t, 8 * b) == block_result(kb, s, b, dec).0,
        le_u32(t, 8 * b + 4) == block_result(kb, s, b, dec).1,
{
    let r = block_result(kb, s, b, dec);
    assert forall|k: int| 0 <= k < 8 implies #[trigger] t[8 * b + k] == if k < 4 {
        byte_of(r.0, k % 4)
    } else {
        byte_of(r.1, k % 4)
    } by {
        assert((8 * b + k) / 8 == b);
        assert((8 * b + k) % 8 == k);
        assert((8 * b + k) % 4 == k % 4);
    }
    assert(t[8 * b] == byte_of(r.0, 0));
    assert(t[8 * b + 1] == byte_of(r.0, 1));
    assert(t[8 * b + 2] == byte_of(r.0, 2));
    assert(t[8 * b + 3] == byte_of(r.0, 3));
    lemma_byte_le(t, 8 * b, r.0);
    assert(t[8 * b + 4] == byte_of(r.1, 0));
    assert(t[8 * b + 5] == byte_of(r.1, 1));
    assert(t[8 * b + 6] == byte_of(r.1, 2));
    assert(t[8 * b + 7] == byte_of(r.1, 3));
    lemma_byte_le(t, 8 * b + 4, r.1);
}

/// Transforming a transformed byte back gives the byte it came from.
proof fn lemma_byte_inverse(kb: Seq<u32>, s: Seq<u8>, t: Seq<u8>, j: int, dec: bool)
    requires
        kb.len() == KEY_BUF_WORDS,
        0 <= j < s.len(),
        s.len() % 8 == 0,
        t.len() == s.len(),
        forall|i: int| 8 * (j / 8) <= i < 8 * (j / 8) + 8 ==> #[trigger] t[i] == crypt_byte(kb, s, i, dec),
    ensures
        crypt_byte(kb, t, j, !dec) == s[j],
{
    let b = j / 8;
    lemma_block_reads_back(kb, s, t, b, dec);
    let blk = (le_u32(s, 8 * b), le_u32(s, 8 * b + 4));
    lemma_round_trip(kb, blk);
    if j % 8 < 4 {
        lemma_le_byte(s, 8 * b, j % 4);
        assert(8 * b + j % 4 == j);
    } else {
        lemma_le_byte(s, 8 * b + 4, j % 4);
        assert(8 * b + 4 + j % 4 == j);
    }
}

/// Deciphering every block undoes enciphering every block, and the reverse.
pub proof fn lemma_blocks_inverse(kb: Seq<u32>, s: Seq<u8>, dec: bool)
    requires
        kb.len() == KEY_BUF_WORDS,
        s.len() % 8 == 0,
    ensures
        crypt_blocks(kb, crypt_blocks(kb, s, dec), !dec) == s,
{
    let t = crypt_blocks(kb, s, dec);
    let u = crypt_blocks(kb, t, !dec);
    assert forall|j: int| 0 <= j < s.len() implies #[trigger] u[j] == s[j] by {
        assert(8 * (j / 8) + 8 <= s.len());
        lemma_byte_inverse(kb, s, t, j, dec);
    }
    assert(u =~= s);
}

/// Transforming the first block back undoes transforming it.
pub proof fn lemma_first_inverse(kb: Seq<u32>, s: Seq<u8>, dec: bool)
    requires
        kb.len() == KEY_BUF_WORDS,
        s.len() % 8 == 0,
        s.len() >= 8,
    ensures
        crypt_first(kb, crypt_first(kb, s, dec), !dec) == s,
{
    let t = crypt_first(kb, s, dec);
    let u = crypt_first(kb, t, !dec);
    assert forall|j: int| 0 <= j < s.len() implies #[trigger] u[j] == s[j] by {
        if j < 8 {
            lemma_byte_inverse(kb, s, t, j, dec);
        }
    }
    assert(u =~= s);
}

/// Encrypting a secure area for a cold boot and decrypting it for a direct
/// boot gives back every byte after the first eight; those read `encryObj`.
pub proof fn lemma_secure_area_round_trip(kb2: Seq<u32>, kb3: Seq<u32>, sa: Seq<u8>)
    requires
        kb2.len() == KEY_BUF_WORDS,
        kb3.len() == KEY_BUF_WORDS,
        sa.len() == 0x800,
    ensures
        decrypt_area(kb2, kb3, encrypt_area(kb2, kb3, sa)) == encryobj() + sa.subrange(8, 0x800),
{
    let marked = encryobj() + sa.subrange(8, 0x800);
    let x = crypt_blocks(kb3, marked, false);
    lemma_first_inverse(kb2, x, false);
    lemma_blocks_inverse(kb3, marked, false);
}

} // verus!
