//! The KEY1 key schedule and its 64-bit block cipher, a Blowfish variant.
use vstd::prelude::*;
use crate::bytes::{le_u32, read_le_u32};

verus! {

/// Words in a key buffer: 18 P-words followed by four 256-word S-boxes.
pub const KEY_BUF_WORDS: usize = 0x412;

/// Size of the ARM7 BIOS image that seeds the key buffer.
pub const BIOS_SIZE: usize = 0x4000;

/// The S-box function applied to the right half in every round.
pub open spec fn mix(kb: Seq<u32>, z: u32) -> u32 {
    (kb[0x12 + (z >> 24u32) as int].wrapping_add(kb[0x112 + ((z >> 16u32) & 0xFF) as int])
        ^ kb[0x212 + ((z >> 8u32) & 0xFF) as int]).wrapping_add(kb[0x312 + (z & 0xFF) as int])
}

/// State `(y, x)` after the first `n` rounds keyed by `keys[0..n]`.
pub open spec fn rounds(kb: Seq<u32>, keys: Seq<u32>, y: u32, x: u32, n: nat) -> (u32, u32)
    decreases n,
{
    if n == 0 {
        (y, x)
    } else {
        let prev = rounds(kb, keys, y, x, (n - 1) as nat);
        let z = prev.1 ^ keys[n - 1];
        (z, mix(kb, z) ^ prev.0)
    }
}

/// Sixteen rounds keyed by `keys[0..16]`, then the output whitening with `keys[16]`
/// and `keys[17]`.
pub open spec fn cipher(kb: Seq<u32>, keys: Seq<u32>, block: (u32, u32)) -> (u32, u32) {
    let st = rounds(kb, keys, block.0, block.1, 16);
    (st.1 ^ keys[16], st.0 ^ keys[17])
}

/// The P-words in the order encryption uses them.
pub open spec fn enc_keys(kb: Seq<u32>) -> Seq<u32> {
    kb.subrange(0, 18)
}

/// The P-words in the order decryption uses them.
pub open spec fn dec_keys(kb: Seq<u32>) -> Seq<u32> {
    Seq::new(18, |i: int| kb[17 - i])
}

pub open spec fn encrypt(kb: Seq<u32>, block: (u32, u32)) -> (u32, u32) {
    cipher(kb, enc_keys(kb), block)
}

pub open spec fn decrypt(kb: Seq<u32>, block: (u32, u32)) -> (u32, u32) {
    cipher(kb, dec_keys(kb), block)
}

/// `v` with its four bytes in reverse order.
pub open spec fn bswap(v: u32) -> u32 {
    ((v & 0xFF) << 24u32) | (((v >> 8u32) & 0xFF) << 16u32) | (((v >> 16u32) & 0xFF) << 8u32) | (v
        >> 24u32)
}

/// The buffer after the first `n` word pairs have been replaced by the running
/// encryption of `(0, 0)`, and the running block.
pub open spec fn refresh(kb: Seq<u32>, n: nat) -> (Seq<u32>, (u32, u32))
    decreases n,
{
    if n == 0 {
        (kb, (0u32, 0u32))
    } else {
        let prev = refresh(kb, (n - 1) as nat);
        let e = encrypt(prev.0, prev.1);
        (prev.0.update(2 * (n - 1), e.1).update(2 * (n - 1) + 1, e.0), e)
    }
}

/// The key code after its two encryptions at the start of a schedule step.
pub open spec fn stepped_code(kb: Seq<u32>, kc: Seq<u32>) -> Seq<u32> {
    let e1 = encrypt(kb, (kc[1], kc[2]));
    let e2 = encrypt(kb, (kc[0], e1.0));
    seq![e2.0, e2.1, e1.1]
}

/// The buffer with its P-words mixed with the byte-swapped key code.
pub open spec fn keyed_words(kb: Seq<u32>, kc: Seq<u32>, modulo: int) -> Seq<u32> {
    Seq::new(kb.len(), |i: int| if i < 18 { kb[i] ^ bswap(kc[i % modulo]) } else { kb[i] })
}

/// One schedule step: `(buffer, key code)` before to `(buffer, key code)` after.
pub open spec fn schedule_step(kb: Seq<u32>, kc: Seq<u32>, modulo: int) -> (Seq<u32>, Seq<u32>) {
    let kc2 = stepped_code(kb, kc);
    (refresh(keyed_words(kb, kc2, modulo), 0x209).0, kc2)
}

/// The buffer words read from the BIOS, little-endian, from offset 0x30.
pub open spec fn bios_words(bios: Seq<u8>) -> Seq<u32> {
    Seq::new(KEY_BUF_WORDS as nat, |i: int| le_u32(bios, 0x30 + 4 * i))
}

pub open spec fn initial_code(id_code: u32) -> Seq<u32> {
    seq![id_code, id_code >> 1u32, id_code << 1u32]
}

/// The level-2 schedule for a game code and BIOS: two schedule steps.
pub open spec fn level_2_schedule(id_code: u32, bios: Seq<u8>, modulo: int) -> (Seq<u32>, Seq<u32>) {
    let s = schedule_step(bios_words(bios), initial_code(id_code), modulo);
    schedule_step(s.0, s.1, modulo)
}

/// The level-3 schedule derived from a level-2 buffer and key code.
pub open spec fn level_3_schedule(kb: Seq<u32>, kc: Seq<u32>, modulo: int) -> (Seq<u32>, Seq<u32>) {
    schedule_step(kb, seq![kc[0], kc[1] << 1u32, kc[2] >> 1u32], modulo)
}

/// The half-block entering round `m`, for `1 <= m <= 17`; round 17 is the
/// output whitening with `keys[16]`.
spec fn round_input(kb: Seq<u32>, keys: Seq<u32>, y: u32, x: u32, m: nat) -> u32 {
    rounds(kb, keys, y, x, (m - 1) as nat).1 ^ keys[m - 1]
}

spec fn half(kb: Seq<u32>, keys: Seq<u32>, y: u32, x: u32, m: nat) -> u32 {
    if m == 0 {
        y
    } else {
        round_input(kb, keys, y, x, m)
    }
}

proof fn lemma_xor_cancel(f: u32, a: u32, k: u32)
    ensures
        f ^ ((f ^ a) ^ k) == a ^ k,
        (a ^ k) ^ k == a,
{
    assert(f ^ ((f ^ a) ^ k) == a ^ k) by (bit_vector);
    assert((a ^ k) ^ k == a) by (bit_vector);
}

/// After `j` rounds keyed by the reversed keys, the enciphered block has been
/// walked back `j` rounds.
proof fn lemma_unwind(kb: Seq<u32>, keys: Seq<u32>, y: u32, x: u32, j: nat)
    requires
        keys.len() == 18,
        j <= 16,
    ensures
        ({
            let c = cipher(kb, keys, (y, x));
            let rk = Seq::new(18, |i: int| keys[17 - i]);
            rounds(kb, rk, c.0, c.1, j) == (
                half(kb, keys, y, x, (17 - j) as nat),
                half(kb, keys, y, x, (16 - j) as nat) ^ keys[17 - j],
            )
        }),
    decreases j,
{
    let c = cipher(kb, keys, (y, x));
    let rk = Seq::new(18, |i: int| keys[17 - i]);
    if j == 0 {
        let st = rounds(kb, keys, y, x, 16);
        lemma_xor_cancel(0, st.0, keys[17]);
    } else {
        lemma_unwind(kb, keys, y, x, (j - 1) as nat);
        let m = (17 - j) as nat;
        let z = half(kb, keys, y, x, m);
        let lower = half(kb, keys, y, x, (m - 1) as nat);
        let prev = rounds(kb, keys, y, x, m);
        assert(prev == (z, mix(kb, z) ^ lower));
        lemma_xor_cancel(mix(kb, z), lower, keys[m as int]);
        lemma_xor_cancel(z, 0, 0);
        assert(rk[j - 1] == keys[17 - (j - 1)]);
        let lhs = rounds(kb, rk, c.0, c.1, (j - 1) as nat);
        assert((lhs.1 ^ keys[18 - j]) == z) by {
            lemma_xor_cancel(0, z, keys[18 - j]);
            assert(0u32 ^ z == z) by (bit_vector);
        }
    }
}

/// Enciphering with `keys` and then with the same keys reversed gives back the
/// block.
proof fn lemma_cipher_inverse(kb: Seq<u32>, keys: Seq<u32>, block: (u32, u32))
    requires
        keys.len() == 18,
    ensures
        cipher(kb, Seq::new(18, |i: int| keys[17 - i]), cipher(kb, keys, block)) == block,
{
    lemma_unwind(kb, keys, block.0, block.1, 16);
    let k0 = keys[0];
    let k1 = keys[1];
    lemma_xor_cancel(0, block.0, k1);
    lemma_xor_cancel(0, block.1, k0);
}

/// Decryption undoes encryption and encryption undoes decryption, for every
/// block and every key buffer.
pub proof fn lemma_round_trip(kb: Seq<u32>, block: (u32, u32))
    requires
        kb.len() == KEY_BUF_WORDS,
    ensures
        decrypt(kb, encrypt(kb, block)) == block,
        encrypt(kb, decrypt(kb, block)) == block,
{
    let ek = enc_keys(kb);
    lemma_cipher_inverse(kb, ek, block);
    assert(Seq::new(18, |i: int| ek[17 - i]) =~= dec_keys(kb));
    let dk = dec_keys(kb);
    lemma_cipher_inverse(kb, dk, block);
    assert(Seq::new(18, |i: int| dk[17 - i]) =~= enc_keys(kb));
}

/// Two level-2 buffers built from the same BIOS and the same game code are
/// equal word for word.
pub proof fn lemma_schedule_deterministic(
    a: KeyBuffer<false>,
    b: KeyBuffer<false>,
    id_code: u32,
    bios: Seq<u8>,
    modulo: int,
)
    requires
        (a.words(), a.code()) == level_2_schedule(id_code, bios, modulo),
        (b.words(), b.code()) == level_2_schedule(id_code, bios, modulo),
    ensures
        a.words() == b.words(),
        a.code() == b.code(),
{
}

proof fn lemma_refresh_len(kb: Seq<u32>, n: nat)
    requires
        2 * n <= kb.len(),
    ensures
        refresh(kb, n).0.len() == kb.len(),
    decreases n,
{
    if n > 0 {
        lemma_refresh_len(kb, (n - 1) as nat);
    }
}

/// A level-3 schedule keeps the buffer length.
pub proof fn lemma_level_3_len(kb: Seq<u32>, kc: Seq<u32>, modulo: int)
    requires
        kb.len() == KEY_BUF_WORDS,
    ensures
        level_3_schedule(kb, kc, modulo).0.len() == KEY_BUF_WORDS,
{
    let kc3 = seq![kc[0], kc[1] << 1u32, kc[2] >> 1u32];
    lemma_refresh_len(keyed_words(kb, stepped_code(kb, kc3), modulo), 0x209);
}

/// A KEY1 key buffer; `LEVEL_3` tells the secure-area schedule from the
/// command one.
pub struct KeyBuffer<const LEVEL_3: bool> {
    key_buf: Vec<u32>,
    key_code: Vec<u32>,
}

impl<const LEVEL_3: bool> KeyBuffer<LEVEL_3> {
    /// The P and S words.
    pub closed spec fn words(&self) -> Seq<u32> {
        self.key_buf@
    }

    /// The three-word key code.
    pub closed spec fn code(&self) -> Seq<u32> {
        self.key_code@
    }

    pub open spec fn wf(&self) -> bool {
        &&& self.words().len() == KEY_BUF_WORDS
        &&& self.code().len() == 3
    }

    /// Builds the level-2 schedule for `id_code` from the BIOS words.
    pub fn new_boxed<const MODULO: usize>(id_code: u32, arm7_bios: &[u8]) -> (r: Box<Self>)
        requires
            2 <= MODULO <= 3,
            arm7_bios@.len() == BIOS_SIZE,
        ensures
            r.wf(),
            (r.words(), r.code()) == level_2_schedule(id_code, arm7_bios@, MODULO as int),
    {
        let mut key_buf: Vec<u32> = Vec::new();
        let mut i: usize = 0;
        while i < KEY_BUF_WORDS
            invariant
                i <= KEY_BUF_WORDS,
                arm7_bios@.len() == BIOS_SIZE,
                key_buf@ =~= bios_words(arm7_bios@).subrange(0, i as int),
            decreases KEY_BUF_WORDS - i,
        {
            key_buf.push(read_le_u32(arm7_bios, 0x30 + 4 * i));
            i += 1;
        }
        let mut result = KeyBuffer {
            key_buf,
            key_code: vec![id_code, id_code >> 1u32, id_code << 1u32],
        };
        assert(result.code() =~= initial_code(id_code));
        assert(result.words() =~= bios_words(arm7_bios@));
        result.apply_key_code::<MODULO>();
        result.apply_key_code::<MODULO>();
        Box::new(result)
    }

    fn mix(&self, z: u32) -> (r: u32)
        requires
            self.wf(),
        ensures
            r == mix(self.words(), z),
    {
        proof {
            assert(z >> 24u32 <= 0xFF) by (bit_vector);
            assert((z >> 16u32) & 0xFF <= 0xFF) by (bit_vector);
            assert((z >> 8u32) & 0xFF <= 0xFF) by (bit_vector);
            assert(z & 0xFF <= 0xFF) by (bit_vector);
        }
        (self.key_buf[0x12 + (z >> 24u32) as usize].wrapping_add(
            self.key_buf[0x112 + ((z >> 16u32) & 0xFF) as usize],
        ) ^ self.key_buf[0x212 + ((z >> 8u32) & 0xFF) as usize]).wrapping_add(
            self.key_buf[0x312 + (z & 0xFF) as usize],
        )
    }

    pub fn encrypt_64_bit(&self, block: [u32; 2]) -> (r: [u32; 2])
        requires
            self.wf(),
        ensures
            (r[0], r[1]) == encrypt(self.words(), (block[0], block[1])),
    {
        let ghost kb = self.words();
        let mut y = block[0];
        let mut x = block[1];
        let mut i: usize = 0;
        while i < 0x10
            invariant
                i <= 0x10,
                self.wf(),
                kb == self.words(),
                (y, x) == rounds(kb, enc_keys(kb), block[0], block[1], i as nat),
            decreases 0x10 - i,
        {
            let z = x ^ self.key_buf[i];
            x = self.mix(z) ^ y;
            y = z;
            i += 1;
        }
        [x ^ self.key_buf[0x10], y ^ self.key_buf[0x11]]
    }

    pub fn decrypt_64_bit(&self, block: [u32; 2]) -> (r: [u32; 2])
        requires
            self.wf(),
        ensures
            (r[0], r[1]) == decrypt(self.words(), (block[0], block[1])),
    {
        let ghost kb = self.words();
        let mut y = block[0];
        let mut x = block[1];
        let mut i: usize = 0x12;
        while i > 2
            invariant
                2 <= i <= 0x12,
                self.wf(),
                kb == self.words(),
                (y, x) == rounds(kb, dec_keys(kb), block[0], block[1], (0x12 - i) as nat),
            decreases i,
        {
            i -= 1;
            let z = x ^ self.key_buf[i];
            x = self.mix(z) ^ y;
            y = z;
        }
        [x ^ self.key_buf[1], y ^ self.key_buf[0]]
    }

    fn byte_swap(v: u32) -> (r: u32)
        ensures
            r == bswap(v),
    {
        ((v & 0xFF) << 24u32) | (((v >> 8u32) & 0xFF) << 16u32) | (((v >> 16u32) & 0xFF) << 8u32)
            | (v >> 24u32)
    }

    /// One schedule step with the key code taken modulo `MODULO`.
    pub fn apply_key_code<const MODULO: usize>(&mut self)
        requires
            old(self).wf(),
            2 <= MODULO <= 3,
        ensures
            final(self).wf(),
            (final(self).words(), final(self).code()) == schedule_step(
                old(self).words(),
                old(self).code(),
                MODULO as int,
            ),
    {
        let ghost kb0 = self.words();
        let ghost kc0 = self.code();
        let scratch = self.encrypt_64_bit([self.key_code[1], self.key_code[2]]);
        self.key_code.set(1, scratch[0]);
        self.key_code.set(2, scratch[1]);
        let scratch = self.encrypt_64_bit([self.key_code[0], self.key_code[1]]);
        self.key_code.set(0, scratch[0]);
        self.key_code.set(1, scratch[1]);
        assert(self.code() =~= stepped_code(kb0, kc0));
        let ghost kc2 = self.code();
        let mut i: usize = 0;
        while i < 0x12
            invariant
                i <= 0x12,
                2 <= MODULO <= 3,
                self.wf(),
                self.code() == kc2,
                forall|k: int| 0 <= k < i ==> #[trigger] self.words()[k] == kb0[k] ^ bswap(kc2[k % MODULO as int]),
                forall|k: int| i <= k < KEY_BUF_WORDS ==> #[trigger] self.words()[k] == kb0[k],
            decreases 0x12 - i,
        {
            let w = self.key_buf[i] ^ Self::byte_swap(self.key_code[i % MODULO]);
            self.key_buf.set(i, w);
            i += 1;
        }
        let ghost kb1 = self.words();
        assert(kb1 =~= keyed_words(kb0, kc2, MODULO as int));
        let mut s0: u32 = 0;
        let mut s1: u32 = 0;
        let mut p: usize = 0;
        while p < 0x209
            invariant
                p <= 0x209,
                self.wf(),
                self.code() == kc2,
                (self.words(), (s0, s1)) == refresh(kb1, p as nat),
            decreases 0x209 - p,
        {
            let e = self.encrypt_64_bit([s0, s1]);
            s0 = e[0];
            s1 = e[1];
            self.key_buf.set(2 * p, s1);
            self.key_buf.set(2 * p + 1, s0);
            p += 1;
        }
    }
}

impl KeyBuffer<false> {
    /// Derives the level-3 schedule; `self` is left as it is.
    pub fn level_3<const MODULO: usize>(&self) -> (r: KeyBuffer<true>)
        requires
            self.wf(),
            2 <= MODULO <= 3,
        ensures
            r.wf(),
            (r.words(), r.code()) == level_3_schedule(self.words(), self.code(), MODULO as int),
    {
        let mut key_buf: Vec<u32> = Vec::new();
        let mut i: usize = 0;
        while i < KEY_BUF_WORDS
            invariant
                i <= KEY_BUF_WORDS,
                self.wf(),
                key_buf@ =~= self.words().subrange(0, i as int),
            decreases KEY_BUF_WORDS - i,
        {
            key_buf.push(self.key_buf[i]);
            i += 1;
        }
        assert(key_buf@ =~= self.words());
        let mut result = KeyBuffer::<true> {
            key_buf,
            key_code: vec![self.key_code[0], self.key_code[1] << 1u32, self.key_code[2] >> 1u32],
        };
        result.apply_key_code::<MODULO>();
        result
    }
}

} // verus!
