use ds_slot_rom::contents::Contents;
use ds_slot_rom::icon::{decode_to_rgba8, read_header_and_decode_to_rgba8};
use ds_slot_rom::key1::KeyBuffer;
use ds_slot_rom::normal::{chip_id, is_valid_size, CreationError, Model, Normal, Stage};

const ROM_LEN: usize = 0x2_0000;
const GAME_CODE: u32 = 0x4142_4344;

fn put_le(buf: &mut [u8], off: usize, v: u32) {
    buf[off..off + 4].copy_from_slice(&v.to_le_bytes());
}

fn bios() -> Vec<u8> {
    (0..0x4000u32).map(|i| (i.wrapping_mul(37) ^ (i >> 3)) as u8).collect()
}

fn image(len: usize, secure_area_start: u32) -> Vec<u8> {
    let mut bytes: Vec<u8> = (0..len).map(|i| (i % 251) as u8).collect();
    put_le(&mut bytes, 0x0C, GAME_CODE);
    put_le(&mut bytes, 0x20, secure_area_start);
    put_le(&mut bytes, 0x68, 0x1_0000);
    bytes
}

fn plaintext_image() -> Vec<u8> {
    let mut bytes = image(ROM_LEN, 0x4000);
    put_le(&mut bytes, 0x4000, 0xE7FF_DEFF);
    put_le(&mut bytes, 0x4004, 0xE7FF_DEFF);
    bytes
}

fn device(bytes: Vec<u8>, with_bios: bool) -> Normal {
    let contents = Contents::new(bytes).unwrap();
    let b = bios();
    let bios_ref: Option<&[u8]> = if with_bios { Some(&b[..]) } else { None };
    Normal::new(contents, bios_ref, Model::Ds).ok().unwrap()
}

fn run(dev: &mut Normal, cmd: [u8; 8], len: u32) -> Vec<u8> {
    let mut out = vec![0xAAu8; 0x4000];
    dev.handle_rom_command(cmd, &mut out, len);
    assert!(out[len as usize..].iter().all(|&b| b == 0xAA));
    out.truncate(len as usize);
    out
}

fn level_2() -> Box<KeyBuffer<false>> {
    KeyBuffer::<false>::new_boxed::<2>(GAME_CODE, &bios())
}

/// A KEY1 command whose decryption has `hi` in bytes 0..4.
fn key1_command(hi: u32, lo: u32) -> [u8; 8] {
    let c = level_2().encrypt_64_bit([lo, hi]);
    let mut cmd = [0u8; 8];
    cmd[0..4].copy_from_slice(&c[1].to_be_bytes());
    cmd[4..8].copy_from_slice(&c[0].to_be_bytes());
    cmd
}

fn key2_device() -> Normal {
    let mut dev = device(image(ROM_LEN, 0), false);
    assert_eq!(dev.setup(true), Ok(()));
    assert_eq!(dev.stage(), Stage::Key2);
    dev
}

#[test]
fn cipher_round_trip() {
    let kb = level_2();
    let kb3 = kb.level_3::<2>();
    for &block in &[[0u32, 0u32], [1, 2], [0xFFFF_FFFF, 0x1234_5678], [0xDEAD_BEEF, 0]] {
        assert_eq!(kb.decrypt_64_bit(kb.encrypt_64_bit(block)), block);
        assert_eq!(kb.encrypt_64_bit(kb.decrypt_64_bit(block)), block);
        assert_eq!(kb3.decrypt_64_bit(kb3.encrypt_64_bit(block)), block);
        assert_ne!(kb.encrypt_64_bit(block), block);
    }
}

#[test]
fn schedule_is_deterministic() {
    let a = level_2();
    let b = level_2();
    for &block in &[[0u32, 0u32], [7, 9], [0x8000_0000, 1]] {
        assert_eq!(a.encrypt_64_bit(block), b.encrypt_64_bit(block));
    }
    let other = KeyBuffer::<false>::new_boxed::<2>(GAME_CODE + 1, &bios());
    assert_ne!(a.encrypt_64_bit([0, 0]), other.encrypt_64_bit([0, 0]));
}

#[test]
fn level_3_differs_from_level_2() {
    let kb = level_2();
    let kb3 = kb.level_3::<2>();
    assert_ne!(kb.encrypt_64_bit([0, 0]), kb3.encrypt_64_bit([0, 0]));
    assert_eq!(kb.encrypt_64_bit([0, 0]), level_2().encrypt_64_bit([0, 0]));
}

#[test]
fn chained_encryption_changes_block() {
    let kb = level_2();
    let first = kb.encrypt_64_bit([0, 0]);
    let second = kb.encrypt_64_bit(first);
    assert_ne!(first, second);
}

#[test]
fn chip_id_formula() {
    assert_eq!(chip_id(0x2_0000), 0x0000_00C2);
    assert_eq!(chip_id(0x10_0000), 0x0000_00C2);
    assert_eq!(chip_id(0x80_0000), 0x0000_07C2);
    assert_eq!(chip_id(0x1000_0000), 0x0000_FFC2);
    assert_eq!(chip_id(0x2000_0000), 0x0000_FEC2);
    let dev = device(image(ROM_LEN, 0x4000), false);
    assert_eq!(dev.chip_id(), 0xC2);
}

#[test]
fn size_validation() {
    assert!(is_valid_size(0x2_0000, Model::Ds));
    assert!(!is_valid_size(0x1_0000, Model::Ds));
    assert!(!is_valid_size(0x3_0000, Model::Ds));
    assert!(!is_valid_size(0x4000_0000, Model::Ds));
    assert!(is_valid_size(0x4000_0000, Model::Dsi));
    let small = Contents::new(image(0x1_0000, 0x4000)).unwrap();
    assert_eq!(Normal::new(small, None, Model::Ds).err(), Some(CreationError::InvalidSize));
    let padded = Contents::new(image(0x1_8000, 0x4000)).unwrap();
    assert_eq!(padded.len(), 0x2_0000);
    assert!(Normal::new(padded, None, Model::Ds).is_ok());
    assert!(Contents::new(vec![0u8; 0x100]).is_none());
}

#[test]
fn padding_reads_zero() {
    let bytes = image(0x1_8000, 0x4000);
    let c = Contents::new(bytes.clone()).unwrap();
    let mut out = vec![0xFFu8; 8];
    c.read_slice(0x1_7FFC, &mut out);
    assert_eq!(&out[..4], &bytes[0x1_7FFC..]);
    assert_eq!(&out[4..], &[0, 0, 0, 0]);
}

#[test]
fn wrap_around_read() {
    let bytes = image(ROM_LEN, 0x4000);
    let dev = device(bytes.clone(), false);
    let mut out = vec![0u8; 10];
    dev.read((ROM_LEN - 3) as u32, &mut out);
    let mut expected = bytes[ROM_LEN - 3..].to_vec();
    expected.extend_from_slice(&bytes[..7]);
    assert_eq!(out, expected);
    let mut masked = vec![0u8; 4];
    dev.read((ROM_LEN + 5) as u32, &mut masked);
    assert_eq!(masked, bytes[5..9].to_vec());
}

#[test]
fn secure_area_overlay_composite() {
    let mut c = Contents::new(image(ROM_LEN, 0x4000)).unwrap();
    let mut sa = c.secure_area().unwrap();
    sa[0..4].copy_from_slice(&[1, 2, 3, 4]);
    c.set_secure_area(sa);
    let mut out = vec![0u8; 8];
    c.read_slice(c.secure_area_start(), &mut out);
    assert_eq!(&out[..4], &[1, 2, 3, 4]);
    assert_eq!(out[4], (0x4004 % 251) as u8);
    let mut around = vec![0u8; 4];
    c.read_slice(0x3FFE, &mut around);
    assert_eq!(around, vec![(0x3FFE % 251) as u8, (0x3FFF % 251) as u8, 1, 2]);
}

#[test]
fn secure_area_unavailable_past_image_end() {
    let mut c = Contents::new(image(0x1_8000, 0x1_7F00)).unwrap();
    assert!(c.secure_area().is_none());
    assert!(c.secure_area().is_none());
}

#[test]
fn dldi_overlay_composite() {
    let mut c = Contents::new(image(ROM_LEN, 0x4000)).unwrap();
    let mut area = c.dldi_area(0x9000, 0x10).unwrap();
    assert_eq!(area[0], (0x9000 % 251) as u8);
    area[0] = 0x55;
    area[0xF] = 0x66;
    c.set_dldi_area(area);
    let again = c.dldi_area(0x100, 4).unwrap();
    assert_eq!(again.len(), 0x10);
    let mut out = vec![0u8; 0x12];
    c.read_slice(0x9000, &mut out);
    assert_eq!(out[0], 0x55);
    assert_eq!(out[0xF], 0x66);
    assert_eq!(out[0x10], (0x9010 % 251) as u8);
}

#[test]
fn direct_boot_keeps_plaintext_secure_area() {
    let bytes = plaintext_image();
    let mut dev = device(bytes.clone(), true);
    assert_eq!(dev.setup(true), Ok(()));
    assert_eq!(dev.stage(), Stage::Key2);
    let mut out = vec![0u8; 0x800];
    dev.contents().read_slice(0x4000, &mut out);
    assert_eq!(out, bytes[0x4000..0x4800].to_vec());
}

#[test]
fn cold_then_direct_boot_restores_secure_area() {
    let bytes = plaintext_image();
    let mut dev = device(bytes.clone(), true);
    assert_eq!(dev.setup(false), Ok(()));
    assert_eq!(dev.stage(), Stage::Initial);
    let mut encrypted = vec![0u8; 0x800];
    dev.contents().read_slice(0x4000, &mut encrypted);
    assert_ne!(encrypted, bytes[0x4000..0x4800].to_vec());
    assert_eq!(dev.setup(true), Ok(()));
    let mut out = vec![0u8; 0x800];
    dev.contents().read_slice(0x4000, &mut out);
    assert_eq!(&out[..8], b"encryObj");
    assert_eq!(&out[8..], &bytes[0x4008..0x4800]);
}

#[test]
fn direct_boot_without_keys_fails_on_encrypted_area() {
    let mut dev = device(image(ROM_LEN, 0x4000), false);
    assert_eq!(dev.setup(true), Err(()));
}

#[test]
fn direct_boot_of_homebrew_goes_to_key2() {
    let dev = key2_device();
    assert_eq!(dev.into_contents().len(), ROM_LEN);
}

#[test]
fn initial_9f_fills_ff() {
    let mut dev = device(image(ROM_LEN, 0x4000), true);
    let out = run(&mut dev, [0x9F, 0, 0, 0, 0, 0, 0, 0], 16);
    assert_eq!(out, vec![0xFFu8; 16]);
    assert_eq!(dev.stage(), Stage::Initial);
}

#[test]
fn initial_header_and_chip_id() {
    let bytes = image(ROM_LEN, 0x4000);
    let mut dev = device(bytes.clone(), true);
    let out = run(&mut dev, [0; 8], 0x2000);
    assert_eq!(&out[..0x1000], &bytes[..0x1000]);
    assert_eq!(&out[0x1000..], &bytes[..0x1000]);
    let id = run(&mut dev, [0x90, 0, 0, 0, 0, 0, 0, 0], 8);
    assert_eq!(id, vec![0xC2, 0, 0, 0, 0xC2, 0, 0, 0]);
    let unknown = run(&mut dev, [0x90, 0, 0, 1, 0, 0, 0, 0], 8);
    assert_eq!(unknown, vec![0xFFu8; 8]);
}

#[test]
fn key1_then_key2_transition() {
    let mut dev = device(image(ROM_LEN, 0x4000), true);
    let out = run(&mut dev, [0x3C, 1, 2, 3, 4, 5, 6, 7], 8);
    assert_eq!(out, vec![0xFFu8; 8]);
    assert_eq!(dev.stage(), Stage::Key1);
    let out = run(&mut dev, key1_command(0xA000_0000, 0x1234), 0x10);
    assert_eq!(out, vec![0u8; 0x10]);
    assert_eq!(dev.stage(), Stage::Key2);
}

#[test]
fn key1_commands() {
    let bytes = image(ROM_LEN, 0x4000);
    let mut dev = device(bytes.clone(), true);
    run(&mut dev, [0x3C, 0, 0, 0, 0, 0, 0, 0], 4);
    assert_eq!(run(&mut dev, key1_command(0x4000_0000, 0), 8), vec![0xFFu8; 8]);
    assert_eq!(run(&mut dev, key1_command(0x1000_0000, 0), 8), vec![0xC2, 0, 0, 0, 0xC2, 0, 0, 0]);
    let read = run(&mut dev, key1_command(0x2000_1000, 0), 0x1000);
    assert_eq!(read, bytes[0x5000..0x6000].to_vec());
    assert_eq!(run(&mut dev, key1_command(0x7000_0000, 0), 8), vec![0u8; 8]);
    assert_eq!(dev.stage(), Stage::Key1);
}

#[test]
fn key2_read_folds_low_addresses() {
    let bytes = image(ROM_LEN, 0);
    let mut dev = key2_device();
    let out = run(&mut dev, [0xB7, 0, 0, 0x40, 0, 0, 0, 0], 0x1000);
    assert_eq!(out, bytes[0x8000..0x9000].to_vec());
}

#[test]
fn key2_read_rewrites_and_stays_in_page() {
    let bytes = image(ROM_LEN, 0);
    let mut dev = key2_device();
    let out = run(&mut dev, [0xB7, 0, 0, 0, 0x10, 0, 0, 0], 0x1000);
    assert_eq!(&out[..0xFF0], &bytes[0x8010..0x9000]);
    assert_eq!(&out[0xFF0..], &bytes[0x8000..0x8010]);
}

#[test]
fn key2_read_high_address() {
    let bytes = image(ROM_LEN, 0);
    let mut dev = key2_device();
    let out = run(&mut dev, [0xB7, 0, 0x01, 0x23, 0x40, 0, 0, 0], 0x200);
    assert_eq!(out, bytes[0x1_2340..0x1_2540].to_vec());
    let chip = run(&mut dev, [0xB8, 0, 0, 0, 0, 0, 0, 0], 4);
    assert_eq!(chip, vec![0xC2, 0, 0, 0]);
    assert_eq!(run(&mut dev, [0x12, 0, 0, 0, 0, 0, 0, 0], 4), vec![0u8; 4]);
}

#[test]
fn reset_returns_to_initial() {
    let mut dev = device(image(ROM_LEN, 0x4000), true);
    run(&mut dev, [0x3C, 0, 0, 0, 0, 0, 0, 0], 4);
    let dev = dev.reset();
    assert_eq!(dev.stage(), Stage::Initial);
    assert_eq!(dev.chip_id(), 0xC2);
}

fn icon_image() -> Vec<u8> {
    let mut bytes = image(ROM_LEN, 0x4000);
    let data = 0x1_0000 + 0x20;
    bytes[data..data + 0x200].fill(0);
    put_le(&mut bytes, data, 0x1234_5678);
    let palette = data + 0x200;
    for i in 0..16 {
        let color: u16 = match i {
            1 => 0x001F,
            2 => 0x03E0,
            3 => 0x7C00,
            _ => 0x7FFF,
        };
        bytes[palette + 2 * i..palette + 2 * i + 2].copy_from_slice(&color.to_le_bytes());
    }
    bytes
}

#[test]
fn icon_decodes_tile_row() {
    let c = Contents::new(icon_image()).unwrap();
    let px = read_header_and_decode_to_rgba8(&c).unwrap();
    assert_eq!(px.len(), 1024);
    let white = 0xFFFF_FFFF;
    assert_eq!(
        &px[..8],
        &[white, white, white, white, white, 0xFFFF_0000, 0xFF00_FF00, 0xFF00_00FF]
    );
    assert_eq!(px[8], 0);
    assert_eq!(px[32], 0);
}

#[test]
fn icon_tile_layout() {
    let mut bytes = icon_image();
    let data = 0x1_0000 + 0x20;
    // tile (x 1, y 0), row 2, first byte: pixels (row 2, columns 8 and 9)
    bytes[data + 0x20 + 2 * 4] = 0x21;
    // tile (x 0, y 1), row 0, last byte: pixels (row 8, columns 6 and 7)
    bytes[data + 0x80 + 3] = 0x30;
    let c = Contents::new(bytes).unwrap();
    let px = decode_to_rgba8(0x1_0000, &c).unwrap();
    assert_eq!(px[2 * 32 + 8], 0xFF00_00FF);
    assert_eq!(px[2 * 32 + 9], 0xFF00_FF00);
    assert_eq!(px[8 * 32 + 6], 0);
    assert_eq!(px[8 * 32 + 7], 0xFFFF_0000);
}

#[test]
fn icon_bounds() {
    let c = Contents::new(image(ROM_LEN, 0x4000)).unwrap();
    assert!(decode_to_rgba8(ROM_LEN - 0x23F, &c).is_none());
    assert!(decode_to_rgba8(ROM_LEN, &c).is_none());
    assert!(decode_to_rgba8(usize::MAX - 4, &c).is_none());
    assert_eq!(decode_to_rgba8(ROM_LEN - 0x240, &c).unwrap().len(), 1024);
}

#[test]
fn key1_secure_read_sees_patched_overlay() {
    let mut dev = device(image(ROM_LEN, 0x4000), true);
    let mut sa = dev.contents().secure_area().unwrap();
    sa[0..4].copy_from_slice(&[9, 8, 7, 6]);
    dev.contents().set_secure_area(sa);
    run(&mut dev, [0x3C, 0, 0, 0, 0, 0, 0, 0], 4);
    let out = run(&mut dev, key1_command(0x2000_0000, 0), 0x2000);
    assert_eq!(&out[..4], &[9, 8, 7, 6]);
    assert_eq!(&out[0x1000..0x1004], &[9, 8, 7, 6]);
}
