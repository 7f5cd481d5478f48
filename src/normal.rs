//! The game-card device: construction checks, wrap-around reads, the
//! secure-area transform of `setup` and the three-stage command interpreter.
use vstd::prelude::*;
use vstd::arithmetic::div_mod::{lemma_mod_add_multiples_vanish, lemma_small_mod};
use crate::bytes::{be_u32, byte_of, read_be_u32, spliced};
use crate::contents::{is_pow2, wrapped, Contents};
use crate::key1::{decrypt, level_2_schedule, level_3_schedule, KeyBuffer, BIOS_SIZE};
use crate::secure::{
    crypt_all_blocks, crypt_first_block, decrypt_area, encrypt_area, is_plain, is_plain_area,
};

verus! {

/// Largest output of one command.
pub const MAX_OUTPUT_LEN: u32 = 0x4000;

/// The console model, which bounds the accepted image sizes.
#[derive(Clone, Copy, Debug, PartialEq, Eq, Structural)]
pub enum Model {
    Ds,
    Dsi,
}

#[derive(Clone, Copy, Debug, PartialEq, Eq, Structural)]
pub enum CreationError {
    InvalidSize,
}

/// Where the command protocol stands.
#[derive(Clone, Copy, Debug, PartialEq, Eq, Structural)]
pub enum Stage {
    Initial,
    Key1,
    Key2,
}

/// The largest image length `model` accepts.
pub open spec fn max_len(model: Model) -> nat {
    match model {
        Model::Ds => 0x2000_0000,
        Model::Dsi => 0x8000_0000,
    }
}

/// `len` is a power of two no smaller than 128 KiB and no larger than the
/// model allows.
pub open spec fn valid_size(len: nat, model: Model) -> bool {
    &&& 0x2_0000 <= len <= max_len(model)
    &&& is_pow2(len as u32)
}

/// Byte 1 of the chip ID: 0 under 1 MiB, the size in MiB minus one up to
/// 256 MiB, and 256 minus the size in 256 MiB units above.
pub open spec fn size_class(len: nat) -> nat {
    if len < 0x10_0000 {
        0
    } else if len < 0x1000_0000 {
        (len / 0x10_0000 - 1) as nat
    } else {
        (0x100 - len / 0x1000_0000) as nat
    }
}

pub open spec fn chip_id_for(len: nat) -> u32 {
    (0xC2 + size_class(len) * 0x100) as u32
}

pub fn is_valid_size(len: usize, model: Model) -> (r: bool)
    ensures
        r == valid_size(len as nat, model),
{
    let max: usize = match model {
        Model::Ds => 0x2000_0000,
        Model::Dsi => 0x8000_0000,
    };
    if len < 0x2_0000 || len > max {
        return false;
    }
    let n = len as u32;
    n & (n - 1) == 0
}

/// The chip ID of an image `len` bytes long.
pub fn chip_id(len: u32) -> (r: u32)
    requires
        len >= 1,
    ensures
        r == chip_id_for(len as nat),
{
    proof {
        assert(len >> 20u32 == len / 0x10_0000) by (bit_vector);
        assert(len >> 28u32 == len / 0x1000_0000) by (bit_vector);
        assert(len >> 28u32 <= 0xF) by (bit_vector);
    }
    let class: u32 = if len < 0x10_0000 {
        0
    } else if len < 0x1000_0000 {
        (len >> 20u32) - 1
    } else {
        0x100 - (len >> 28u32)
    };
    assert(class <= 0x100);
    proof {
        assert(class <= 0x100 ==> 0xC2 | (class << 8u32) == 0xC2 + class * 0x100) by (bit_vector);
    }
    0xC2 | (class << 8u32)
}

/// `n` copies of `b`.
pub open spec fn fill_spec(n: int, b: u8) -> Seq<u8> {
    Seq::new(n as nat, |k: int| b)
}

/// The chip ID, little-endian, repeated to `n` bytes.
pub open spec fn chip_pattern(id: u32, n: int) -> Seq<u8> {
    Seq::new(n as nat, |k: int| byte_of(id, k % 4))
}

/// Bytes 1..8 of a command are all zero.
pub open spec fn low_zero(cmd: Seq<u8>) -> bool {
    forall|k: int| 1 <= k < 8 ==> cmd[k] == 0
}

/// The KEY2 read address after the secure-area rule: addresses under 0x8000
/// fold onto `0x8000 | (addr & 0x1FF)`.
pub open spec fn key2_addr(cmd: Seq<u8>, mask: u32) -> int {
    let a = be_u32(cmd, 1) & mask;
    if a < 0x8000 {
        (0x8000 | (a & 0x1FF)) as int
    } else {
        a as int
    }
}

/// `n` bytes read at `addr` without leaving its 0x1000-byte page.
pub open spec fn paged(v: Seq<u8>, addr: int, n: int) -> Seq<u8> {
    wrapped(v, addr - addr % 0x1000, 0x1000, addr % 0x1000, n)
}

/// `n` bytes of the 0x1000-byte block at `start`, repeated.
pub open spec fn repeated(v: Seq<u8>, start: int, n: int) -> Seq<u8> {
    wrapped(v, start, 0x1000, 0, n)
}

/// A KEY1 command decrypted with the level-2 words; `.1` holds bytes 0..4
/// and `.0` bytes 4..8, big-endian.
pub open spec fn key1_plain(kb: Seq<u32>, cmd: Seq<u8>) -> (u32, u32) {
    decrypt(kb, (be_u32(cmd, 4), be_u32(cmd, 0)))
}

fn fill(out: &mut Vec<u8>, n: usize, b: u8)
    requires
        n <= old(out)@.len(),
    ensures
        final(out)@ == spliced(old(out)@, 0, fill_spec(n as int, b)),
{
    let mut k: usize = 0;
    while k < n
        invariant
            k <= n <= old(out)@.len(),
            out@ == spliced(old(out)@, 0, fill_spec(k as int, b)),
        decreases n - k,
    {
        out.set(k, b);
        proof {
            assert(out@ =~= spliced(old(out)@, 0, fill_spec(k + 1, b)));
        }
        k += 1;
    }
}

fn fill_chip_id(out: &mut Vec<u8>, n: usize, id: u32)
    requires
        n <= old(out)@.len(),
    ensures
        final(out)@ == spliced(old(out)@, 0, chip_pattern(id, n as int)),
{
    let mut k: usize = 0;
    while k < n
        invariant
            k <= n <= old(out)@.len(),
            out@ == spliced(old(out)@, 0, chip_pattern(id, k as int)),
        decreases n - k,
    {
        out.set(k, ((id >> ((8 * (k % 4)) as u32)) & 0xFF) as u8);
        proof {
            assert(out@ =~= spliced(old(out)@, 0, chip_pattern(id, k + 1)));
        }
        k += 1;
    }
}

fn is_low_zero(cmd: &[u8; 8]) -> (r: bool)
    ensures
        r == low_zero(cmd@),
{
    let mut k: usize = 1;
    while k < 8
        invariant
            1 <= k <= 8,
            forall|j: int| 1 <= j < k ==> cmd@[j] == 0,
        decreases 8 - k,
    {
        if cmd[k] != 0 {
            return false;
        }
        k += 1;
    }
    true
}

/// The secure-area start does not lie in `[0x4000, 0x8000)`: the image is
/// homebrew.
pub open spec fn is_homebrew(start: int) -> bool {
    !(0x4000 <= start < 0x8000)
}

/// The secure area as the next request for it returns it.
pub open spec fn materialized_secure(c: Contents) -> Option<Seq<u8>> {
    if c.secure_tried() {
        c.secure()
    } else {
        c.secure_from_image()
    }
}

/// The game-card device over a cartridge image.
pub struct Normal {
    contents: Contents,
    rom_mask: u32,
    chip_id: u32,
    key_buf: Option<Box<KeyBuffer<false>>>,
    stage: Stage,
}

impl Normal {
    pub closed spec fn rom(&self) -> Contents {
        self.contents
    }

    pub closed spec fn mask(&self) -> u32 {
        self.rom_mask
    }

    pub closed spec fn chip(&self) -> u32 {
        self.chip_id
    }

    pub closed spec fn st(&self) -> Stage {
        self.stage
    }

    /// The level-2 buffer words and key code, when a BIOS was given.
    pub closed spec fn keys(&self) -> Option<(Seq<u32>, Seq<u32>)> {
        match self.key_buf {
            Some(k) => Some((k.words(), k.code())),
            None => None,
        }
    }

    pub closed spec fn wf(&self) -> bool {
        &&& self.contents.wf()
        &&& self.contents@.len() == self.rom_mask as nat + 1
        &&& 0x2_0000 <= self.contents@.len() <= 0x8000_0000
        &&& is_pow2(self.contents@.len() as u32)
        &&& self.chip_id == chip_id_for(self.contents@.len())
        &&& (self.key_buf matches Some(k) ==> k.wf())
    }

    /// What a command returns, and the stage after it, for `n` output bytes.
    pub open spec fn response(&self, cmd: Seq<u8>, n: int) -> (Stage, Seq<u8>) {
        let v = self.rom()@;
        match self.st() {
            Stage::Initial => {
                if cmd[0] == 0x9F && low_zero(cmd) {
                    (Stage::Initial, fill_spec(n, 0xFF))
                } else if cmd[0] == 0x00 && low_zero(cmd) {
                    (Stage::Initial, repeated(v, 0, n))
                } else if cmd[0] == 0x90 && low_zero(cmd) {
                    (Stage::Initial, chip_pattern(self.chip(), n))
                } else if cmd[0] == 0x3C {
                    (Stage::Key1, fill_spec(n, 0xFF))
                } else {
                    (Stage::Initial, fill_spec(n, 0xFF))
                }
            },
            Stage::Key1 => {
                let hi = key1_plain(self.keys().unwrap().0, cmd).1;
                let nibble = hi >> 28u32;
                if nibble == 0x4 {
                    (Stage::Key1, fill_spec(n, 0xFF))
                } else if nibble == 0x1 {
                    (Stage::Key1, chip_pattern(self.chip(), n))
                } else if nibble == 0x2 {
                    let start = 0x4000 | ((((hi >> 8u32) & 0x30) as u32) << 8u32);
                    (Stage::Key1, repeated(v, start as int, n))
                } else if nibble == 0xA {
                    (Stage::Key2, fill_spec(n, 0))
                } else {
                    (Stage::Key1, fill_spec(n, 0))
                }
            },
            Stage::Key2 => {
                if cmd[0] == 0xB7 {
                    (Stage::Key2, paged(v, key2_addr(cmd, self.mask()), n))
                } else if cmd[0] == 0xB8 && low_zero(cmd) {
                    (Stage::Key2, chip_pattern(self.chip(), n))
                } else {
                    (Stage::Key2, fill_spec(n, 0))
                }
            },
        }
    }

    /// Checks the image size for `model` and builds the level-2 key schedule
    /// from `arm7_bios` when one is given.
    pub fn new(contents: Contents, arm7_bios: Option<&[u8]>, model: Model) -> (r: Result<
        Normal,
        CreationError,
    >)
        requires
            contents.wf(),
            arm7_bios matches Some(b) ==> b@.len() == BIOS_SIZE,
        ensures
            r is Err <==> !valid_size(contents@.len(), model),
            r matches Ok(n) ==> {
                &&& n.wf()
                &&& n.rom() == contents
                &&& n.st() == Stage::Initial
                &&& n.mask() as nat == contents@.len() - 1
                &&& n.chip() == chip_id_for(contents@.len())
                &&& n.keys() == match arm7_bios {
                    Some(b) => Some(level_2_schedule(contents.code(), b@, 2)),
                    None => None,
                }
            },
    {
        let len = contents.len();
        if !is_valid_size(len, model) {
            return Err(CreationError::InvalidSize);
        }
        let rom_mask = (len - 1) as u32;
        let chip_id = chip_id(len as u32);
        let game_code = contents.game_code();
        let key_buf = match arm7_bios {
            Some(bios) => Some(KeyBuffer::<false>::new_boxed::<2>(game_code, bios)),
            None => None,
        };
        Ok(Normal { contents, rom_mask, chip_id, key_buf, stage: Stage::Initial })
    }

    pub fn into_contents(self) -> (r: Contents)
        ensures
            r == self.rom(),
    {
        self.contents
    }

    /// The cartridge contents, to read or to patch overlays through; the
    /// device stays well formed as long as they stay well formed and keep
    /// their size.
    pub fn contents(&mut self) -> (r: &mut Contents)
        ensures
            *r == old(self).rom(),
            final(self).rom() == *final(r),
            final(self).mask() == old(self).mask(),
            final(self).chip() == old(self).chip(),
            final(self).keys() == old(self).keys(),
            final(self).st() == old(self).st(),
            old(self).wf() && final(r).wf() && final(r).size() == old(self).rom().size()
                ==> final(self).wf(),
    {
        &mut self.contents
    }

    /// The device back at the initial stage, with everything else kept.
    pub fn reset(self) -> (r: Self)
        ensures
            r.rom() == self.rom(),
            r.mask() == self.mask(),
            r.chip() == self.chip(),
            r.keys() == self.keys(),
            r.st() == Stage::Initial,
            self.wf() ==> r.wf(),
    {
        Normal { stage: Stage::Initial, ..self }
    }

    pub fn stage(&self) -> (r: Stage)
        ensures
            r == self.st(),
    {
        self.stage
    }

    pub fn chip_id(&self) -> (r: u32)
        ensures
            r == self.chip(),
    {
        self.chip_id
    }

    /// Fills `out` from `addr & mask`, wrapping past the end of the image back
    /// to offset 0.
    pub fn read(&self, addr: u32, out: &mut Vec<u8>)
        requires
            self.wf(),
        ensures
            final(out)@ == wrapped(
                self.rom()@,
                0,
                self.rom()@.len() as int,
                (addr & self.mask()) as int,
                old(out)@.len() as int,
            ),
    {
        let mask = self.rom_mask;
        proof {
            assert(addr & mask <= mask) by (bit_vector);
        }
        let a = (addr & mask) as usize;
        let rom_len = self.contents.len();
        let n = out.len();
        self.contents.read_wrapped(0, rom_len, a, out, n);
        proof {
            assert(out@ =~= wrapped(self.rom()@, 0, rom_len as int, a as int, n as int));
        }
    }

    /// Fills the header bytes of the image.
    pub fn read_header(&self, out: &mut Vec<u8>)
        requires
            self.wf(),
            old(out)@.len() == crate::contents::HEADER_LEN,
        ensures
            final(out)@ == self.rom().image().subrange(0, crate::contents::HEADER_LEN as int),
    {
        self.contents.read_header(out);
    }

    /// Runs one 8-byte command, writing `output_len` response bytes to the
    /// front of `output`.
    pub fn handle_rom_command(&mut self, cmd: [u8; 8], output: &mut Vec<u8>, output_len: u32)
        requires
            old(self).wf(),
            output_len <= MAX_OUTPUT_LEN,
            output_len % 4 == 0,
            output_len as nat <= old(output)@.len(),
            old(self).st() == Stage::Key1 ==> old(self).keys() is Some,
        ensures
            final(self).wf(),
            final(self).rom() == old(self).rom(),
            final(self).mask() == old(self).mask(),
            final(self).chip() == old(self).chip(),
            final(self).keys() == old(self).keys(),
            final(self).st() == old(self).response(cmd@, output_len as int).0,
            final(output)@ == spliced(
                old(output)@,
                0,
                old(self).response(cmd@, output_len as int).1,
            ),
    {
        let n = output_len as usize;
        let ghost v = self.rom()@;
        match self.stage {
            Stage::Initial => {
                let low_zero = is_low_zero(&cmd);
                if cmd[0] == 0x9F && low_zero {
                    fill(output, n, 0xFF);
                } else if cmd[0] == 0x00 && low_zero {
                    self.contents.read_wrapped(0, 0x1000, 0, output, n);
                } else if cmd[0] == 0x90 && low_zero {
                    fill_chip_id(output, n, self.chip_id);
                } else if cmd[0] == 0x3C {
                    self.stage = Stage::Key1;
                    fill(output, n, 0xFF);
                } else {
                    fill(output, n, 0xFF);
                }
            },
            Stage::Key1 => {
                let key_buf = self.key_buf.as_ref().unwrap();
                let res = key_buf.decrypt_64_bit(
                    [read_be_u32(cmd.as_slice(), 4), read_be_u32(cmd.as_slice(), 0)],
                );
                let hi = res[1];
                let nibble = hi >> 28u32;
                if nibble == 0x4 {
                    fill(output, n, 0xFF);
                } else if nibble == 0x1 {
                    fill_chip_id(output, n, self.chip_id);
                } else if nibble == 0x2 {
                    let start = 0x4000 | (((hi >> 8u32) & 0x30) << 8u32);
                    proof {
                        assert(0x4000 | (((hi >> 8u32) & 0x30) << 8u32) <= 0x7000) by (bit_vector);
                    }
                    self.contents.read_wrapped(start as usize, 0x1000, 0, output, n);
                } else if nibble == 0xA {
                    self.stage = Stage::Key2;
                    fill(output, n, 0);
                } else {
                    fill(output, n, 0);
                }
            },
            Stage::Key2 => {
                let low_zero = is_low_zero(&cmd);
                if cmd[0] == 0xB7 {
                    let mask = self.rom_mask;
                    let a = read_be_u32(cmd.as_slice(), 1) & mask;
                    let addr = if a < 0x8000 {
                        0x8000 | (a & 0x1FF)
                    } else {
                        a
                    };
                    proof {
                        assert(a & 0x1FF <= 0x1FF) by (bit_vector);
                        assert((0x8000 | (a & 0x1FF)) <= 0x81FF) by (bit_vector)
                            requires a & 0x1FF <= 0x1FF;
                        let bv = be_u32(cmd@, 1);
                        assert(bv & mask <= mask) by (bit_vector);
                        let len = v.len() as u32;
                        assert(is_pow2(len) && len >= 0x2_0000 ==> len % 0x1000 == 0) by (bit_vector);
                    }
                    let addr = addr as usize;
                    let off = addr % 0x1000;
                    self.contents.read_wrapped(addr - off, 0x1000, off, output, n);
                } else if cmd[0] == 0xB8 && low_zero {
                    fill_chip_id(output, n, self.chip_id);
                } else {
                    fill(output, n, 0);
                }
            },
        }
    }

    /// The secure area after `setup(direct_boot)`, and whether it succeeds.
    pub open spec fn setup_outcome(&self, direct_boot: bool) -> (Option<Seq<u8>>, bool) {
        let c = self.rom();
        if direct_boot && is_homebrew(c.secure_start()) {
            (c.secure(), true)
        } else {
            match materialized_secure(c) {
                None => (None, true),
                Some(sa) => {
                    if direct_boot {
                        if is_plain(sa) {
                            (Some(sa), true)
                        } else {
                            match self.keys() {
                                None => (Some(sa), false),
                                Some(k) => (
                                    Some(decrypt_area(k.0, level_3_schedule(k.0, k.1, 2).0, sa)),
                                    true,
                                ),
                            }
                        }
                    } else if is_plain(sa) {
                        let k = self.keys().unwrap();
                        (Some(encrypt_area(k.0, level_3_schedule(k.0, k.1, 2).0, sa)), true)
                    } else {
                        (Some(sa), true)
                    }
                },
            }
        }
    }

    /// Prepares the secure area for the boot mode: a direct boot deciphers it
    /// (when it is not plaintext already) and moves to KEY2; a cold boot
    /// enciphers a plaintext one. Fails only on a direct boot of an encrypted
    /// commercial image without a key schedule.
    pub fn setup(&mut self, direct_boot: bool) -> (r: Result<(), ()>)
        requires
            old(self).wf(),
            !direct_boot && materialized_secure(old(self).rom()) is Some ==> old(self).keys() is Some,
        ensures
            final(self).wf(),
            final(self).mask() == old(self).mask(),
            final(self).chip() == old(self).chip(),
            final(self).keys() == old(self).keys(),
            final(self).rom().same_image(&old(self).rom()),
            final(self).rom().same_dldi(&old(self).rom()),
            final(self).st() == if direct_boot {
                Stage::Key2
            } else {
                old(self).st()
            },
            final(self).rom().secure_tried() == (old(self).rom().secure_tried() || !(direct_boot
                && is_homebrew(old(self).rom().secure_start()))),
            final(self).rom().secure() == old(self).setup_outcome(direct_boot).0,
            r is Ok <==> old(self).setup_outcome(direct_boot).1,
    {
        let start = self.contents.secure_area_start();
        let is_homebrew = !(0x4000 <= start && start < 0x8000);
        if direct_boot {
            self.stage = Stage::Key2;
            if is_homebrew {
                return Ok(());
            }
            let mut secure_area = match self.contents.secure_area() {
                Some(v) => v,
                None => return Ok(()),
            };
            if is_plain_area(&secure_area) {
                return Ok(());
            }
            let key_buf = match &self.key_buf {
                Some(k) => k,
                None => return Err(()),
            };
            crypt_first_block(key_buf, &mut secure_area, true);
            let level_3_key_buf = key_buf.level_3::<2>();
            crypt_all_blocks(&level_3_key_buf, &mut secure_area, true);
            self.contents.set_secure_area(secure_area);
        } else {
            let mut secure_area = match self.contents.secure_area() {
                Some(v) => v,
                None => return Ok(()),
            };
            let key_buf = self.key_buf.as_ref().unwrap();
            if is_plain_area(&secure_area) {
                let ghost plain = secure_area@;
                let marker: [u8; 8] = [0x65, 0x6E, 0x63, 0x72, 0x79, 0x4F, 0x62, 0x6A];
                let mut k: usize = 0;
                while k < 8
                    invariant
                        k <= 8,
                        secure_area@.len() == 0x800,
                        plain.len() == 0x800,
                        forall|j: int| 0 <= j < k ==> #[trigger] secure_area@[j] == marker@[j],
                        forall|j: int| k <= j < 0x800 ==> #[trigger] secure_area@[j] == plain[j],
                    decreases 8 - k,
                {
                    secure_area.set(k, marker[k]);
                    k += 1;
                }
                assert(secure_area@ =~= crate::secure::encryobj() + plain.subrange(8, 0x800));
                let level_3_key_buf = key_buf.level_3::<2>();
                crypt_all_blocks(&level_3_key_buf, &mut secure_area, false);
                crypt_first_block(key_buf, &mut secure_area, false);
                self.contents.set_secure_area(secure_area);
            }
        }
        Ok(())
    }

    /// A read of ten bytes three bytes before the end of the image returns its
    /// last three bytes and then its first seven.
    pub proof fn lemma_wrap_around_read(&self)
        requires
            self.wf(),
        ensures
            ({
                let v = self.rom()@;
                let len = v.len() as int;
                wrapped(v, 0, len, (((len - 3) as u32) & self.mask()) as int, 10) == v.subrange(
                    len - 3,
                    len,
                ) + v.subrange(0, 7)
            }),
    {
        let v = self.rom()@;
        let len = v.len() as int;
        let l = len as u32;
        let m = self.mask();
        assert(m == (l - 1) as u32);
        assert(is_pow2(l) && l >= 0x2_0000 ==> ((l - 3) as u32) & ((l - 1) as u32) == (l - 3) as u32)
            by (bit_vector);
        let w = wrapped(v, 0, len, len - 3, 10);
        assert forall|k: int| 0 <= k < 10 implies #[trigger] w[k] == (v.subrange(len - 3, len)
            + v.subrange(0, 7))[k] by {
            if k < 3 {
                lemma_small_mod((len - 3 + k) as nat, len as nat);
            } else {
                lemma_mod_add_multiples_vanish(k - 3, len);
                lemma_small_mod((k - 3) as nat, len as nat);
            }
        }
        assert(w =~= v.subrange(len - 3, len) + v.subrange(0, 7));
    }

    /// A direct boot leaves a secure area that is plaintext already byte for
    /// byte as it was.
    pub proof fn lemma_setup_keeps_plaintext(&self)
        requires
            self.wf(),
            !is_homebrew(self.rom().secure_start()),
            materialized_secure(self.rom()) matches Some(sa) && is_plain(sa),
        ensures
            self.setup_outcome(true) == (materialized_secure(self.rom()), true),
    {
    }

    /// A cold-boot setup followed by a direct-boot one gives back a plaintext
    /// secure area but for its first eight bytes, which read `encryObj`;
    /// this holds when the enciphered area does not itself start with the
    /// plaintext marker, which would stop the second setup from deciphering.
    pub proof fn lemma_setup_round_trip(&self)
        requires
            self.wf(),
            self.keys() is Some,
            materialized_secure(self.rom()) matches Some(sa) && is_plain(sa),
        ensures
            ({
                let sa = materialized_secure(self.rom()).unwrap();
                let k = self.keys().unwrap();
                let enc = self.setup_outcome(false).0.unwrap();
                &&& enc == encrypt_area(k.0, level_3_schedule(k.0, k.1, 2).0, sa)
                &&& !is_plain(enc) ==> decrypt_area(k.0, level_3_schedule(k.0, k.1, 2).0, enc)
                    == crate::secure::encryobj() + sa.subrange(8, 0x800)
            }),
    {
        let sa = materialized_secure(self.rom()).unwrap();
        let k = self.keys().unwrap();
        self.rom().lemma_secure_len();
        crate::key1::lemma_level_3_len(k.0, k.1, 2);
        crate::secure::lemma_secure_area_round_trip(k.0, level_3_schedule(k.0, k.1, 2).0, sa);
    }
}

} // verus!
