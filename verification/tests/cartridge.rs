use std::io::Write;

use omaboy_core::cartridge::{extract_rom, locate_rom_entry, CartError, Cartridge, Mbc, Rtc, ZipError, ZipMember};

fn rom_with(kind: u8, rom_size: u8, ram_size: u8, banks: usize) -> Vec<u8> {
    let mut rom = vec![0u8; banks * 0x4000];
    for b in 0..banks {
        rom[b * 0x4000] = b as u8;
        rom[b * 0x4000 + 1] = 0xA5;
    }
    rom[0x134..0x13A].copy_from_slice(b"TITLE!");
    rom[0x147] = kind;
    rom[0x148] = rom_size;
    rom[0x149] = ram_size;
    rom
}

#[test]
fn cartridge_rejects_small_and_unknown() {
    assert_eq!(Cartridge::new(vec![0u8; 0x14F]).err(), Some(CartError::TooSmall));
    let mut rom = vec![0u8; 0x8000];
    rom[0x147] = 0xFC;
    assert_eq!(Cartridge::new(rom).err(), Some(CartError::UnsupportedType(0xFC)));
}

#[test]
fn cartridge_header_fields() {
    let mut rom = rom_with(0x13, 1, 3, 4);
    rom[0x134..0x144].copy_from_slice(b"POKE\x01MON\0XYZ\0\0\0\0");
    rom[0x143] = 0x80;
    let c = Cartridge::new(rom).unwrap();
    assert_eq!(c.mbc, Mbc::Mbc3);
    assert!(c.has_battery);
    assert!(!c.has_rtc);
    assert!(c.cgb);
    // Title stops at the first NUL and drops unprintable bytes.
    assert_eq!(c.title, "POKEMON");
    assert_eq!(c.rom_bank_count, 4);
    assert_eq!(c.ram_bank_count, 4);
    assert_eq!(c.ram.len(), 0x8000);
    assert!(c.ram.iter().all(|&b| b == 0xFF));
}

#[test]
fn cartridge_bank_count_from_length_when_code_unknown() {
    let c = Cartridge::new(rom_with(0x19, 0x52, 0, 8)).unwrap();
    assert_eq!(c.rom_bank_count, 8);
    let c = Cartridge::new(rom_with(0x00, 0x52, 0, 1)).unwrap();
    assert_eq!(c.rom_bank_count, 2);
}

#[test]
fn mbc1_rom_banking() {
    let mut c = Cartridge::new(rom_with(0x01, 2, 0, 8)).unwrap();
    assert_eq!(c.read_rom(0x4000), 1);
    c.write_rom(0x2000, 5);
    assert_eq!(c.read_rom(0x4000), 5);
    assert_eq!(c.read_rom(0x4001), 0xA5);
    // Bank 0 selects bank 1.
    c.write_rom(0x2000, 0);
    assert_eq!(c.read_rom(0x4000), 1);
    // Bank numbers wrap at the bank count.
    c.write_rom(0x2000, 9);
    assert_eq!(c.read_rom(0x4000), 1);
    assert_eq!(c.read_rom(0x0000), 0);
}

#[test]
fn mbc5_rom_banking_and_ram() {
    let mut c = Cartridge::new(rom_with(0x1B, 3, 3, 16)).unwrap();
    c.write_rom(0x2000, 12);
    assert_eq!(c.read_rom(0x4000), 12);
    c.write_rom(0x0000, 0x0A);
    c.write_rom(0x4000, 2);
    c.write_ram(0x0010, 0x42);
    assert_eq!(c.read_ram(0x0010), 0x42);
    assert_eq!(c.ram[2 * 0x2000 + 0x10], 0x42);
    assert!(c.ram_dirty);
    c.write_rom(0x4000, 1);
    assert_eq!(c.read_ram(0x0010), 0xFF);
}

#[test]
fn ram_disabled_reads_ff_and_ignores_writes() {
    let mut c = Cartridge::new(rom_with(0x03, 1, 2, 4)).unwrap();
    c.write_ram(0x0000, 0x12);
    assert_eq!(c.read_ram(0x0000), 0xFF);
    assert!(!c.ram_dirty);
    c.write_rom(0x0000, 0x0A);
    c.write_ram(0x0000, 0x12);
    assert_eq!(c.read_ram(0x0000), 0x12);
    c.write_rom(0x0000, 0x00);
    assert_eq!(c.read_ram(0x0000), 0xFF);
}

#[test]
fn mbc2_ram_is_four_bits() {
    let mut c = Cartridge::new(rom_with(0x06, 1, 0, 4)).unwrap();
    assert_eq!(c.ram.len(), 0x200);
    c.write_rom(0x0000, 0x0A);
    c.write_ram(0x0205, 0x3C);
    // Addresses mirror every 0x200 bytes; the upper nibble reads as ones.
    assert_eq!(c.read_ram(0x0005), 0xFC);
    // ROM bank select uses address bit 8.
    c.write_rom(0x0100, 3);
    assert_eq!(c.read_rom(0x4000), 3);
}

#[test]
fn mbc3_rtc_registers_latch() {
    let mut c = Cartridge::new(rom_with(0x10, 1, 3, 4)).unwrap();
    c.write_rom(0x0000, 0x0A);
    c.write_rom(0x4000, 0x08);
    c.write_ram(0, 30);
    c.write_rom(0x4000, 0x0A);
    c.write_ram(0, 5);
    // Nothing latched yet.
    c.write_rom(0x4000, 0x08);
    assert_eq!(c.read_ram(0), 0);
    c.write_rom(0x6000, 0);
    c.write_rom(0x6000, 1);
    let s = c.read_ram(0);
    assert!(s >= 30 && s <= 31);
    c.write_rom(0x4000, 0x0A);
    assert_eq!(c.read_ram(0), 5);
}

#[test]
fn load_battery_copies_prefix_and_clears_dirty() {
    let mut c = Cartridge::new(rom_with(0x03, 1, 2, 4)).unwrap();
    c.ram_dirty = true;
    c.load_battery(&[1, 2, 3]);
    assert_eq!(&c.ram[0..4], &[1, 2, 3, 0xFF]);
    assert!(!c.ram_dirty);
    let big = vec![7u8; 0x3000];
    c.load_battery(&big);
    assert_eq!(c.ram.len(), 0x2000);
    assert!(c.ram.iter().all(|&b| b == 7));
}

#[test]
fn rtc_advances_with_carry() {
    let mut r = Rtc::zeroed();
    r.seconds = 50;
    r.base = 1000;
    r.advance_to(1000 + 20);
    assert_eq!((r.seconds, r.minutes, r.hours, r.days), (10, 1, 0, 0));
    assert_eq!(r.base, 1020);
    r.days = 511;
    r.hours = 23;
    r.minutes = 59;
    r.seconds = 59;
    r.advance_to(1021);
    assert_eq!((r.seconds, r.minutes, r.hours, r.days), (0, 0, 0, 0));
    assert!(r.day_carry);
}

#[test]
fn rtc_halted_does_not_count() {
    let mut r = Rtc::zeroed();
    r.halted = true;
    r.advance_to(5000);
    assert_eq!(r.seconds, 0);
    assert_eq!(r.base, 5000);
    // A clock that went backwards only moves the base.
    let mut r = Rtc::zeroed();
    r.base = 100;
    r.seconds = 3;
    r.advance_to(50);
    assert_eq!(r.seconds, 3);
    assert_eq!(r.base, 50);
}

#[test]
fn rtc_image_roundtrip() {
    let mut r = Rtc::zeroed();
    r.seconds = 12;
    r.minutes = 34;
    r.hours = 5;
    r.days = 0x1AB;
    r.halted = true;
    r.day_carry = true;
    r.base = 0x0102_0304_0506_0708;
    let img = r.serialize();
    assert_eq!(img.len(), 44);
    assert_eq!(&img[0..5], &[12, 34, 5, 0xAB, 0x01 | 0x40 | 0x80]);
    assert_eq!(&img[8..16], &0x0102_0304_0506_0708u64.to_le_bytes());
    let mut back = Rtc::zeroed();
    back.deserialize(&img);
    // Halted, so catching up only moves the base.
    assert_eq!((back.seconds, back.minutes, back.hours, back.days), (12, 34, 5, 0x1AB));
    assert!(back.halted && back.day_carry);
}

#[test]
fn rtc_deserialize_ignores_short_and_clamps() {
    let mut r = Rtc::zeroed();
    r.seconds = 9;
    r.deserialize(&[1, 2, 3]);
    assert_eq!(r.seconds, 9);
    let mut img = [0u8; 16];
    img[0] = 200;
    img[1] = 61;
    img[2] = 99;
    img[4] = 0x40;
    r.deserialize(&img);
    assert_eq!((r.seconds, r.minutes, r.hours), (59, 59, 23));
}

fn zip_with(name: &str, method: u16, data: &[u8]) -> Vec<u8> {
    let mut z = Vec::new();
    // local header
    z.extend_from_slice(b"PK\x03\x04");
    z.extend_from_slice(&[20, 0, 0, 0]);
    z.extend_from_slice(&method.to_le_bytes());
    z.extend_from_slice(&[0u8; 12]);
    z.extend_from_slice(&(data.len() as u32).to_le_bytes());
    z.extend_from_slice(&(name.len() as u16).to_le_bytes());
    z.extend_from_slice(&0u16.to_le_bytes());
    z.extend_from_slice(name.as_bytes());
    z.extend_from_slice(data);
    let cd = z.len();
    // central directory entry
    z.extend_from_slice(b"PK\x01\x02");
    z.extend_from_slice(&[20, 0, 20, 0, 0, 0]);
    z.extend_from_slice(&method.to_le_bytes());
    z.extend_from_slice(&[0u8; 8]);
    z.extend_from_slice(&(data.len() as u32).to_le_bytes());
    z.extend_from_slice(&(data.len() as u32).to_le_bytes());
    z.extend_from_slice(&(name.len() as u16).to_le_bytes());
    z.extend_from_slice(&[0u8; 12]);
    z.extend_from_slice(&0u32.to_le_bytes());
    z.extend_from_slice(name.as_bytes());
    let cd_size = z.len() - cd;
    // end of central directory
    z.extend_from_slice(b"PK\x05\x06");
    z.extend_from_slice(&[0u8; 4]);
    z.extend_from_slice(&1u16.to_le_bytes());
    z.extend_from_slice(&1u16.to_le_bytes());
    z.extend_from_slice(&(cd_size as u32).to_le_bytes());
    z.extend_from_slice(&(cd as u32).to_le_bytes());
    z.extend_from_slice(&0u16.to_le_bytes());
    z
}

#[test]
fn extract_plain_rom_passes_through() {
    let rom = rom_with(0, 0, 0, 2);
    assert_eq!(extract_rom(&rom).unwrap(), rom);
    assert_eq!(extract_rom(&[]).unwrap(), Vec::<u8>::new());
}

#[test]
fn extract_stored_zip_entry() {
    let rom: Vec<u8> = (0..=255u8).collect();
    let z = zip_with("game.GB", 0, &rom);
    assert_eq!(extract_rom(&z).unwrap(), rom);
    let start = 30 + "game.GB".len();
    assert_eq!(locate_rom_entry(&z), Ok(ZipMember::Stored { start, size: 256 }));
}

#[test]
fn extract_deflated_zip_entry() {
    let rom: Vec<u8> = (0..4000u32).map(|i| (i % 7) as u8).collect();
    let mut enc = flate2::write::DeflateEncoder::new(Vec::new(), flate2::Compression::default());
    enc.write_all(&rom).unwrap();
    let packed = enc.finish().unwrap();
    let z = zip_with("dir/Game.gbc", 8, &packed);
    assert_eq!(extract_rom(&z).unwrap(), rom);
}

#[test]
fn extract_zip_errors() {
    let rom = vec![1u8, 2, 3];
    // No end record.
    let mut z = zip_with("a.gb", 0, &rom);
    let n = z.len();
    z[n - 22] = b'X';
    assert_eq!(extract_rom(&z), Err(ZipError::NoEndRecord));
    // No ROM entry.
    let z = zip_with("readme.txt", 0, &rom);
    assert_eq!(extract_rom(&z), Err(ZipError::NoRomEntry));
    // Unsupported method.
    let z = zip_with("a.gb", 12, &rom);
    assert_eq!(extract_rom(&z), Err(ZipError::UnsupportedMethod(12)));
    // Damaged local header: point the entry at offset 1.
    let mut z = zip_with("a.gb", 0, &rom);
    let cd = 30 + 4 + rom.len();
    z[cd + 42] = 1;
    assert_eq!(extract_rom(&z), Err(ZipError::BadLocalHeader));
    // Entry data past the end: claim a huge compressed size.
    let mut z = zip_with("a.gb", 0, &rom);
    z[cd + 22] = 0xFF;
    assert_eq!(extract_rom(&z), Err(ZipError::Truncated));
    // Undecodable deflate data.
    let z = zip_with("a.gb", 8, &[0xFF, 0xFF, 0xFF, 0xFF]);
    assert_eq!(extract_rom(&z), Err(ZipError::InflateFailed));
}

#[test]
fn zip_name_running_past_the_end_is_detected() {
    let rom = vec![1u8, 2, 3];
    let mut z = zip_with("a.txt", 0, &rom);
    let cd = 30 + 5 + rom.len();
    z[cd + 29] = 0xFF;
    assert_eq!(locate_rom_entry(&z), Err(ZipError::BadEntryName));
    assert_eq!(extract_rom(&z), Err(ZipError::BadEntryName));
}
