//! A cartridge image with its two writable overlays, the secure area and the
//! DLDI area, composited over the image on every read.
use vstd::prelude::*;
use crate::bytes::{le_u32, read_le_u32, spliced};
use vstd::arithmetic::div_mod::{lemma_add_mod_noop, lemma_mod_self_0, lemma_small_mod};

verus! {

/// Length of the cartridge header at offset 0.
pub const HEADER_LEN: usize = 0x170;

/// Length of the secure-area overlay.
pub const SECURE_AREA_LEN: usize = 0x800;

/// Largest image length accepted.
pub const MAX_IMAGE_LEN: usize = 0x8000_0000;

/// `n` is a power of two.
pub open spec fn is_pow2(n: u32) -> bool {
    n != 0 && n & ((n - 1) as u32) == 0
}

/// `n` rounded up to a power of two.
pub open spec fn is_next_pow2(n: nat, p: u32) -> bool {
    &&& is_pow2(p)
    &&& n <= p
    &&& (p == 1 || p / 2 < n)
}

/// `n` bytes of the window `v[base..base + period]`, starting at offset `off`
/// within it and wrapping back to its start.
pub open spec fn wrapped(v: Seq<u8>, base: int, period: int, off: int, n: int) -> Seq<u8> {
    Seq::new(n as nat, |k: int| v[base + (off + k) % period])
}

/// A cartridge image, zero-padded to a power-of-two length, with the overlays
/// that have been materialized so far.
pub struct Contents {
    image: Vec<u8>,
    len: u32,
    game_code: u32,
    secure_area_start: usize,
    secure_area_tried: bool,
    secure_area: Option<Vec<u8>>,
    dldi_area_start: usize,
    dldi_area_end: usize,
    dldi_area_tried: bool,
    dldi_area: Option<Vec<u8>>,
}

pub open spec fn opt_view(o: Option<Vec<u8>>) -> Option<Seq<u8>> {
    match o {
        Some(v) => Some(v@),
        None => None,
    }
}

impl Contents {
    /// The image bytes as stored, before padding.
    pub closed spec fn image(&self) -> Seq<u8> {
        self.image@
    }

    /// The padded length.
    pub closed spec fn size(&self) -> nat {
        self.len as nat
    }

    pub closed spec fn code(&self) -> u32 {
        self.game_code
    }

    pub closed spec fn secure_start(&self) -> int {
        self.secure_area_start as int
    }

    /// Whether the secure area has been asked for before.
    pub closed spec fn secure_tried(&self) -> bool {
        self.secure_area_tried
    }

    /// The secure-area overlay, once materialized.
    pub closed spec fn secure(&self) -> Option<Seq<u8>> {
        opt_view(self.secure_area)
    }

    pub closed spec fn dldi_start(&self) -> int {
        self.dldi_area_start as int
    }

    pub closed spec fn dldi_end(&self) -> int {
        self.dldi_area_end as int
    }

    pub closed spec fn dldi_tried(&self) -> bool {
        self.dldi_area_tried
    }

    /// The DLDI overlay, once materialized.
    pub closed spec fn dldi(&self) -> Option<Seq<u8>> {
        opt_view(self.dldi_area)
    }

    pub closed spec fn wf(&self) -> bool {
        &&& HEADER_LEN <= self.image@.len() <= MAX_IMAGE_LEN
        &&& is_next_pow2(self.image@.len(), self.len)
        &&& self.game_code == le_u32(self.image@, 0x0C)
        &&& self.secure_area_start == le_u32(self.image@, 0x20) as usize
        &&& (self.secure_area is Some ==> self.secure_area_tried)
        &&& (self.secure_area matches Some(v) ==> v@.len() == SECURE_AREA_LEN
            && self.secure_area_start + SECURE_AREA_LEN <= self.image@.len())
        &&& (self.dldi_area is Some ==> self.dldi_area_tried)
        &&& (self.dldi_area matches Some(v) ==> self.dldi_area_start <= self.dldi_area_end
            <= self.image@.len() && v@.len() == self.dldi_area_end - self.dldi_area_start)
    }

    /// The byte that a read at `i` sees: the DLDI overlay, else the secure
    /// area, else the image, else padding.
    pub open spec fn byte_at(&self, i: int) -> u8 {
        if self.dldi() is Some && self.dldi_start() <= i < self.dldi_end() {
            self.dldi().unwrap()[i - self.dldi_start()]
        } else if self.secure() is Some && self.secure_start() <= i < self.secure_start()
            + SECURE_AREA_LEN {
            self.secure().unwrap()[i - self.secure_start()]
        } else if i < self.image().len() {
            self.image()[i]
        } else {
            0
        }
    }

    /// Everything but the overlays is the same in `self` and `other`.
    pub open spec fn same_image(&self, other: &Contents) -> bool {
        &&& self.image() == other.image()
        &&& self.size() == other.size()
        &&& self.code() == other.code()
        &&& self.secure_start() == other.secure_start()
    }

    pub open spec fn same_dldi(&self, other: &Contents) -> bool {
        &&& self.dldi_tried() == other.dldi_tried()
        &&& self.dldi() == other.dldi()
        &&& self.dldi_start() == other.dldi_start()
        &&& self.dldi_end() == other.dldi_end()
    }

    pub open spec fn same_secure(&self, other: &Contents) -> bool {
        &&& self.secure_tried() == other.secure_tried()
        &&& self.secure() == other.secure()
    }

    /// Wraps an image; `None` when it is shorter than a header or longer than
    /// `MAX_IMAGE_LEN`.
    pub fn new(image: Vec<u8>) -> (r: Option<Contents>)
        ensures
            r is Some <==> HEADER_LEN <= image@.len() <= MAX_IMAGE_LEN,
            r matches Some(c) ==> {
                &&& c.wf()
                &&& c.image() == image@
                &&& is_next_pow2(image@.len(), c.size() as u32)
                &&& c.code() == le_u32(image@, 0x0C)
                &&& c.secure_start() == le_u32(image@, 0x20)
                &&& !c.secure_tried() && c.secure() is None
                &&& !c.dldi_tried() && c.dldi() is None
            },
    {
        let n = image.len();
        if n < HEADER_LEN || n > MAX_IMAGE_LEN {
            return None;
        }
        let mut p: u32 = 1;
        proof {
            assert(is_pow2(1u32)) by (bit_vector);
        }
        while (p as usize) < n
            invariant
                HEADER_LEN <= n <= MAX_IMAGE_LEN,
                is_pow2(p),
                p == 1 || p / 2 < n,
                p <= 0x8000_0000,
            decreases 0x1_0000_0000 - p,
        {
            proof {
                assert(is_pow2(p) && p < 0x8000_0000 ==> p <= 0x4000_0000) by (bit_vector);
                assert(is_pow2(p) && p <= 0x4000_0000 ==> is_pow2((p * 2) as u32)) by (bit_vector);
            }
            p = p * 2;
        }
        let game_code = read_le_u32(image.as_slice(), 0x0C);
        let secure_area_start = read_le_u32(image.as_slice(), 0x20) as usize;
        Some(
            Contents {
                image,
                len: p,
                game_code,
                secure_area_start,
                secure_area_tried: false,
                secure_area: None,
                dldi_area_start: 0,
                dldi_area_end: 0,
                dldi_area_tried: false,
                dldi_area: None,
            },
        )
    }

    /// The padded length.
    pub fn len(&self) -> (r: usize)
        requires
            self.wf(),
        ensures
            r == self@.len(),
    {
        self.len as usize
    }

    pub fn game_code(&self) -> (r: u32)
        ensures
            r == self.code(),
    {
        self.game_code
    }

    /// The secure-area start recorded in the header.
    pub fn secure_area_start(&self) -> (r: usize)
        requires
            self.wf(),
        ensures
            r == self.secure_start(),
    {
        self.secure_area_start
    }

    fn byte(&self, i: usize) -> (r: u8)
        requires
            self.wf(),
        ensures
            r == self.byte_at(i as int),
    {
        if let Some(d) = &self.dldi_area {
            if self.dldi_area_start <= i && i < self.dldi_area_end {
                return d[i - self.dldi_area_start];
            }
        }
        if let Some(s) = &self.secure_area {
            if self.secure_area_start <= i && i - self.secure_area_start < SECURE_AREA_LEN {
                return s[i - self.secure_area_start];
            }
        }
        if i < self.image.len() {
            self.image[i]
        } else {
            0
        }
    }

    /// Copies the `n` bytes at `addr` into `out[start..start + n]`.
    pub fn read_into(&self, addr: usize, out: &mut Vec<u8>, start: usize, n: usize)
        requires
            self.wf(),
            start + n <= old(out)@.len(),
            addr + n <= self@.len(),
        ensures
            final(out)@ == spliced(old(out)@, start as int, self@.subrange(addr as int, addr + n)),
    {
        let ghost src = self@.subrange(addr as int, addr + n);
        let mut k: usize = 0;
        while k < n
            invariant
                self.wf(),
                k <= n,
                start + n <= old(out)@.len(),
                addr + n <= self@.len(),
                src == self@.subrange(addr as int, addr + n),
                out@ == spliced(old(out)@, start as int, src.subrange(0, k as int)),
            decreases n - k,
        {
            let b = self.byte(addr + k);
            let _out_len = out.len();
            out.set(start + k, b);
            proof {
                assert(out@ =~= spliced(old(out)@, start as int, src.subrange(0, k + 1)));
            }
            k += 1;
        }
        proof {
            assert(src.subrange(0, n as int) =~= src);
        }
    }

    /// Fills `out[0..n]` from the window `[base, base + period)`, starting at
    /// offset `off` and wrapping back to the window's start as often as needed.
    pub fn read_wrapped(&self, base: usize, period: usize, off: usize, out: &mut Vec<u8>, n: usize)
        requires
            self.wf(),
            off < period,
            base + period <= self@.len(),
            n <= old(out)@.len(),
        ensures
            final(out)@ == spliced(
                old(out)@,
                0,
                wrapped(self@, base as int, period as int, off as int, n as int),
            ),
    {
        let ghost w = wrapped(self@, base as int, period as int, off as int, n as int);
        let first = period - off;
        if n <= first {
            self.read_into(base + off, out, 0, n);
            proof {
                assert forall|k: int| 0 <= k < n implies #[trigger] w[k] == self@[base + off + k] by {
                    lemma_small_mod((off + k) as nat, period as nat);
                }
                assert(out@ =~= spliced(old(out)@, 0, w));
            }
            return;
        }
        self.read_into(base + off, out, 0, first);
        proof {
            assert forall|k: int| 0 <= k < first implies #[trigger] w[k] == self@[base + off + k] by {
                lemma_small_mod((off + k) as nat, period as nat);
            }
            lemma_mod_self_0(period as int);
            assert(out@ =~= spliced(old(out)@, 0, w.subrange(0, first as int)));
        }
        let mut i: usize = first;
        while i < n
            invariant
                self.wf(),
                off < period,
                base + period <= self@.len(),
                n <= old(out)@.len(),
                first <= i <= n,
                w == wrapped(self@, base as int, period as int, off as int, n as int),
                i < n ==> (off + i) % (period as int) == 0,
                out@ == spliced(old(out)@, 0, w.subrange(0, i as int)),
            decreases n - i,
        {
            let end = if n - i > period {
                i + period
            } else {
                n
            };
            let ghost prev = out@;
            self.read_into(base, out, i, end - i);
            proof {
                assert forall|k: int| i <= k < end implies #[trigger] w[k] == self@[base + k - i] by {
                    lemma_add_mod_noop(off + i, k - i, period as int);
                    lemma_small_mod((k - i) as nat, period as nat);
                }
                assert(out@ =~= spliced(old(out)@, 0, w.subrange(0, end as int)));
                if end < n {
                    lemma_add_mod_noop(off + i, period as int, period as int);
                    lemma_mod_self_0(period as int);
                    lemma_small_mod(0, period as nat);
                    assert(end == i + period);
                    assert((off + i + period) % (period as int) == 0);
                }
            }
            i = end;
        }
        proof {
            assert(w.subrange(0, n as int) =~= w);
        }
    }

    /// Fills `out` with the bytes at `addr`, overlays composited.
    pub fn read_slice(&self, addr: usize, out: &mut Vec<u8>)
        requires
            self.wf(),
            addr + old(out)@.len() <= self@.len(),
        ensures
            final(out)@ == self@.subrange(addr as int, addr + old(out)@.len()),
    {
        let n = out.len();
        self.read_into(addr, out, 0, n);
        proof {
            assert(out@ =~= self@.subrange(addr as int, addr + n));
        }
    }

    /// Fills `out` with the header bytes of the image.
    pub fn read_header(&self, out: &mut Vec<u8>)
        requires
            self.wf(),
            old(out)@.len() == HEADER_LEN,
        ensures
            final(out)@ == self.image().subrange(0, HEADER_LEN as int),
            final(out)@.len() == HEADER_LEN,
            self.image().len() >= HEADER_LEN,
    {
        let mut k: usize = 0;
        while k < HEADER_LEN
            invariant
                self.wf(),
                k <= HEADER_LEN,
                out@.len() == HEADER_LEN,
                forall|j: int| 0 <= j < k ==> #[trigger] out@[j] == self.image()[j],
            decreases HEADER_LEN - k,
        {
            out.set(k, self.image[k]);
            k += 1;
        }
        proof {
            assert(out@ =~= self.image().subrange(0, HEADER_LEN as int));
        }
    }

    /// What the secure area holds when first materialized: the image bytes
    /// under it, when the image holds all of them.
    pub open spec fn secure_from_image(&self) -> Option<Seq<u8>> {
        if self.secure_start() + SECURE_AREA_LEN <= self.image().len() {
            Some(self.image().subrange(self.secure_start(), self.secure_start() + SECURE_AREA_LEN))
        } else {
            None
        }
    }

    /// Materializes the secure area on its first use and returns a copy of it;
    /// `None` when the image cannot supply its bytes, now and on every later
    /// call.
    pub fn secure_area(&mut self) -> (r: Option<Vec<u8>>)
        requires
            old(self).wf(),
        ensures
            final(self).wf(),
            final(self).same_image(old(self)),
            final(self).same_dldi(old(self)),
            final(self)@ == old(self)@,
            final(self).secure_tried(),
            old(self).secure_tried() ==> final(self).secure() == old(self).secure(),
            !old(self).secure_tried() ==> final(self).secure() == old(self).secure_from_image(),
            opt_view(r) == final(self).secure(),
            r matches Some(v) ==> v@.len() == SECURE_AREA_LEN,
    {
        if !self.secure_area_tried {
            self.secure_area_tried = true;
            let start = self.secure_area_start;
            if start <= self.image.len() && self.image.len() - start >= SECURE_AREA_LEN {
                let bytes = vstd::slice::slice_to_vec(
                    vstd::slice::slice_subrange(self.image.as_slice(), start, start + SECURE_AREA_LEN),
                );
                self.secure_area = Some(bytes);
            }
            proof {
                assert(self.secure() == old(self).secure_from_image());
                assert(self@ =~= old(self)@);
            }
        }
        match &self.secure_area {
            Some(v) => Some(vstd::slice::slice_to_vec(v.as_slice())),
            None => None,
        }
    }

    /// Replaces the bytes of a materialized secure area.
    pub fn set_secure_area(&mut self, bytes: Vec<u8>)
        requires
            old(self).wf(),
            old(self).secure() is Some,
            bytes@.len() == SECURE_AREA_LEN,
        ensures
            final(self).wf(),
            final(self).same_image(old(self)),
            final(self).same_dldi(old(self)),
            final(self).secure_tried(),
            final(self).secure() == Some(bytes@),
    {
        self.secure_area = Some(bytes);
    }

    /// What the DLDI area holds when first materialized over `[addr, addr + n)`.
    pub open spec fn dldi_from_image(&self, addr: int, n: int) -> Option<Seq<u8>> {
        if addr + n <= self.image().len() {
            Some(self.image().subrange(addr, addr + n))
        } else {
            None
        }
    }

    /// Materializes the DLDI area over `[addr, addr + n)` on its first use and
    /// returns a copy of it; later calls keep the first window.
    pub fn dldi_area(&mut self, addr: usize, n: usize) -> (r: Option<Vec<u8>>)
        requires
            old(self).wf(),
        ensures
            final(self).wf(),
            final(self).same_image(old(self)),
            final(self).same_secure(old(self)),
            final(self).dldi_tried(),
            old(self).dldi_tried() ==> final(self).same_dldi(old(self)),
            !old(self).dldi_tried() ==> final(self).dldi() == old(self).dldi_from_image(
                addr as int,
                n as int,
            ),
            !old(self).dldi_tried() && final(self).dldi() is Some ==> final(self).dldi_start()
                == addr && final(self).dldi_end() == addr + n,
            opt_view(r) == final(self).dldi(),
    {
        if !self.dldi_area_tried {
            self.dldi_area_tried = true;
            if addr <= self.image.len() && self.image.len() - addr >= n {
                self.dldi_area_start = addr;
                self.dldi_area_end = addr + n;
                let bytes = vstd::slice::slice_to_vec(
                    vstd::slice::slice_subrange(self.image.as_slice(), addr, addr + n),
                );
                self.dldi_area = Some(bytes);
            }
        }
        match &self.dldi_area {
            Some(v) => Some(vstd::slice::slice_to_vec(v.as_slice())),
            None => None,
        }
    }

    /// Replaces the bytes of a materialized DLDI area.
    pub fn set_dldi_area(&mut self, bytes: Vec<u8>)
        requires
            old(self).wf(),
            old(self).dldi() is Some,
            bytes@.len() == old(self).dldi().unwrap().len(),
        ensures
            final(self).wf(),
            final(self).same_image(old(self)),
            final(self).same_secure(old(self)),
            final(self).dldi_tried(),
            final(self).dldi_start() == old(self).dldi_start(),
            final(self).dldi_end() == old(self).dldi_end(),
            final(self).dldi() == Some(bytes@),
    {
        self.dldi_area = Some(bytes);
    }

    /// A secure area, materialized or about to be, is `SECURE_AREA_LEN` bytes.
    pub proof fn lemma_secure_len(&self)
        requires
            self.wf(),
        ensures
            self.secure() matches Some(sa) ==> sa.len() == SECURE_AREA_LEN,
            self.secure_from_image() matches Some(sa) ==> sa.len() == SECURE_AREA_LEN,
    {
    }

    /// Once materialized, the secure area is what reads over its window see,
    /// unless a DLDI area was materialized over it.
    pub proof fn lemma_secure_overlay_read(&self)
        requires
            self.wf(),
            self.secure() is Some,
            self.dldi() is None,
        ensures
            self.secure_start() + SECURE_AREA_LEN <= self@.len(),
            self@.subrange(self.secure_start(), self.secure_start() + SECURE_AREA_LEN)
                == self.secure().unwrap(),
    {
        assert(self@.subrange(self.secure_start(), self.secure_start() + SECURE_AREA_LEN)
            =~= self.secure().unwrap());
    }
}

impl View for Contents {
    type V = Seq<u8>;

    /// What reads see: `size()` bytes, overlays composited over the padded
    /// image.
    open spec fn view(&self) -> Seq<u8> {
        Seq::new(self.size(), |i: int| self.byte_at(i))
    }
}

} // verus!
