//! Decoding of the cartridge's 32×32 icon into linear RGBA8 pixels.
use vstd::prelude::*;
use crate::bytes::{le_u16, le_u32, read_le_u16, read_le_u32};
use crate::contents::{Contents, HEADER_LEN};

verus! {

/// Bytes from the icon/title offset to the end of the icon palette.
pub const ICON_SPAN: usize = 0x240;

/// Pixel bytes (0x200) followed by the sixteen palette entries (0x20).
pub const ICON_DATA_LEN: usize = 0x220;

pub const ICON_PIXELS: usize = 32 * 32;

/// A 5-bit channel widened to 8 bits.
pub open spec fn expand5(c: u32) -> u32 {
    (c << 3u32) | (c >> 2u32)
}

/// Palette entry `i` as RGBA8 packed little-endian; entry 0 is transparent.
pub open spec fn palette_color(data: Seq<u8>, i: int) -> u32 {
    if i == 0 {
        0
    } else {
        let raw = le_u16(data, 0x200 + 2 * i) as u32;
        let r = raw & 0x1F;
        let g = (raw >> 5u32) & 0x1F;
        let b = (raw >> 10u32) & 0x1F;
        0xFF00_0000 | expand5(r) | (expand5(g) << 8u32) | (expand5(b) << 16u32)
    }
}

/// The palette index of pixel `p` (row-major over 32×32) in the 4bpp tiles:
/// 4×4 tiles of 8×8 pixels, 4 bytes per tile row, low nibble first.
pub open spec fn pixel_index(data: Seq<u8>, p: int) -> int {
    let row = p / 32;
    let col = p % 32;
    let src = (row / 8) * 0x80 + (col / 8) * 0x20 + (row % 8) * 4 + (col % 8) / 2;
    if col % 2 == 0 {
        (data[src] & 0xF) as int
    } else {
        (data[src] >> 4u8) as int
    }
}

pub open spec fn icon_pixels(data: Seq<u8>) -> Seq<u32> {
    Seq::new(ICON_PIXELS as nat, |p: int| palette_color(data, pixel_index(data, p)))
}

fn palette_entry(data: &Vec<u8>, i: u8) -> (r: u32)
    requires
        data@.len() == ICON_DATA_LEN,
        i < 16,
    ensures
        r == palette_color(data@, i as int),
{
    if i == 0 {
        return 0;
    }
    let raw = read_le_u16(data.as_slice(), 0x200 + 2 * (i as usize)) as u32;
    let r = raw & 0x1F;
    let g = (raw >> 5u32) & 0x1F;
    let b = (raw >> 10u32) & 0x1F;
    0xFF00_0000 | ((r << 3u32) | (r >> 2u32)) | (((g << 3u32) | (g >> 2u32)) << 8u32) | (((b
        << 3u32) | (b >> 2u32)) << 16u32)
}

/// Decodes the icon whose data starts 0x20 bytes after `icon_title_offset`;
/// `None` when the image is too short to hold it.
pub fn decode_to_rgba8(icon_title_offset: usize, rom_contents: &Contents) -> (r: Option<Vec<u32>>)
    requires
        rom_contents.wf(),
    ensures
        r is None <==> icon_title_offset + ICON_SPAN > rom_contents@.len(),
        r matches Some(px) ==> {
            let data = rom_contents@.subrange(
                icon_title_offset + 0x20,
                icon_title_offset + ICON_SPAN,
            );
            &&& px@ == icon_pixels(data)
            &&& px@.len() == ICON_PIXELS
            &&& forall|p: int|
                0 <= p < ICON_PIXELS && pixel_index(data, p) == 0 ==> #[trigger] px@[p] == 0
        },
{
    let len = rom_contents.len();
    if icon_title_offset > len || len - icon_title_offset < ICON_SPAN {
        return None;
    }
    let mut data: Vec<u8> = vec![0u8; ICON_DATA_LEN];
    rom_contents.read_slice(icon_title_offset + 0x20, &mut data);
    let ghost d = data@;
    let mut pixels: Vec<u32> = Vec::new();
    let mut p: usize = 0;
    while p < ICON_PIXELS
        invariant
            p <= ICON_PIXELS,
            data@ == d,
            d.len() == ICON_DATA_LEN,
            pixels@ =~= icon_pixels(d).subrange(0, p as int),
        decreases ICON_PIXELS - p,
    {
        let row = p / 32;
        let col = p % 32;
        let src = (row / 8) * 0x80 + (col / 8) * 0x20 + (row % 8) * 4 + (col % 8) / 2;
        let byte = data[src];
        let index = if col % 2 == 0 {
            byte & 0xF
        } else {
            byte >> 4u8
        };
        proof {
            assert(byte & 0xF < 16) by (bit_vector);
            assert(byte >> 4u8 < 16) by (bit_vector);
        }
        pixels.push(palette_entry(&data, index));
        p += 1;
    }
    proof {
        assert(pixels@ =~= icon_pixels(d));
    }
    Some(pixels)
}

/// Reads the icon/title offset from the header (little-endian at 0x68) and
/// decodes the icon there.
pub fn read_header_and_decode_to_rgba8(rom_contents: &Contents) -> (r: Option<Vec<u32>>)
    requires
        rom_contents.wf(),
    ensures
        ({
            let off = le_u32(rom_contents.image(), 0x68) as int;
            &&& r is None <==> off + ICON_SPAN > rom_contents@.len()
            &&& r matches Some(px) ==> px@ == icon_pixels(
                rom_contents@.subrange(off + 0x20, off + ICON_SPAN),
            )
        }),
{
    let mut header_bytes: Vec<u8> = vec![0u8; HEADER_LEN];
    rom_contents.read_header(&mut header_bytes);
    let icon_title_offset = read_le_u32(header_bytes.as_slice(), 0x68) as usize;
    assert(header_bytes@[0x68] == rom_contents.image()[0x68]);
    assert(header_bytes@[0x69] == rom_contents.image()[0x69]);
    assert(header_bytes@[0x6A] == rom_contents.image()[0x6A]);
    assert(header_bytes@[0x6B] == rom_contents.image()[0x6B]);
    decode_to_rgba8(icon_title_offset, rom_contents)
}

} // verus!
