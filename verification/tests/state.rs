use omaboy_core::gameboy::Gameboy;
use omaboy_core::state::{parse_state, STATE_FIXED_LEN, VERSION};

fn test_rom() -> Vec<u8> {
    let mut rom = vec![0u8; 0x8000];
    rom[0x100] = 0x00; // NOP
    rom[0x101] = 0xC3; // JP 0x0150
    rom[0x102] = 0x50;
    rom[0x103] = 0x01;
    // busy loop at 0x150: INC A; JR -3
    rom[0x150] = 0x3C;
    rom[0x151] = 0x18;
    rom[0x152] = 0xFD;
    rom[0x134..0x140].copy_from_slice(b"STATETEST\0\0\0");
    rom[0x147] = 0x13; // MBC3+RAM+BATTERY
    rom[0x148] = 0x01; // 64 KiB (we only fill 32; reads pad with 0xFF)
    rom[0x149] = 0x03; // 32 KiB RAM
    rom
}

#[test]
fn state_roundtrip() {
    let mut gb = Gameboy::new(test_rom()).unwrap();
    for _ in 0..10 {
        gb.run_frame();
    }
    let snap = gb.save_state();
    let at_snap = (gb.cpu.pc, gb.cpu.a, gb.bus.frame_cycles);

    for _ in 0..7 {
        gb.run_frame();
    }
    assert_ne!(gb.bus.frame_cycles, at_snap.2);

    assert!(gb.load_state(&snap));
    assert_eq!((gb.cpu.pc, gb.cpu.a, gb.bus.frame_cycles), at_snap);
    // A restored machine must serialize identically.
    assert_eq!(gb.save_state(), snap);
}

#[test]
fn state_rejects_other_game_and_truncation() {
    let mut gb = Gameboy::new(test_rom()).unwrap();
    gb.run_frame();
    let snap = gb.save_state();

    let mut other_rom = test_rom();
    other_rom[0x134..0x139].copy_from_slice(b"OTHER");
    let mut other = Gameboy::new(other_rom).unwrap();
    assert!(!other.load_state(&snap));

    let before = gb.save_state();
    assert!(!gb.load_state(&snap[..snap.len() / 2]));
    assert_eq!(gb.save_state(), before); // untouched on failure
}

#[test]
fn state_layout_header_and_length() {
    let gb = Gameboy::new(test_rom()).unwrap();
    let snap = gb.save_state();
    // 32 KiB of cartridge RAM on top of the fixed part.
    assert_eq!(snap.len(), STATE_FIXED_LEN + 0x8000);
    assert_eq!(&snap[0..4], b"OMST");
    assert_eq!(&snap[4..8], &VERSION.to_le_bytes());
    assert_eq!(&snap[8..36], &test_rom()[0x134..0x150]);
}

#[test]
fn state_rejects_bad_tag_and_version() {
    let mut gb = Gameboy::new(test_rom()).unwrap();
    gb.run_frame();
    let snap = gb.save_state();

    let mut bad_tag = snap.clone();
    bad_tag[0] = b'X';
    assert!(!gb.load_state(&bad_tag));

    let mut bad_version = snap.clone();
    bad_version[4] = 2;
    assert!(!gb.load_state(&bad_version));

    assert_eq!(gb.save_state(), snap);
    assert!(gb.load_state(&snap));
}

#[test]
fn state_load_sets_battery_dirty_and_clears_frame_flag() {
    let mut gb = Gameboy::new(test_rom()).unwrap();
    gb.run_frame();
    let snap = gb.save_state();
    gb.bus.cart.ram_dirty = false;
    gb.run_frame();
    assert!(gb.load_state(&snap));
    assert!(gb.bus.cart.ram_dirty);
    assert!(!gb.bus.ppu.frame_ready);
}

#[test]
fn state_flags_are_normalized_on_load() {
    let mut gb = Gameboy::new(test_rom()).unwrap();
    let snap = gb.save_state();
    // The CPU's IME flag is the byte after A..L, SP and PC (36 + 8 + 4).
    let mut raw = snap.clone();
    raw[48] = 7;
    assert!(gb.load_state(&raw));
    assert!(gb.cpu.ime);
    let again = gb.save_state();
    assert_eq!(again[48], 1);
}

#[test]
fn parse_state_requires_whole_snapshot() {
    let gb = Gameboy::new(test_rom()).unwrap();
    let snap = gb.save_state();
    let fp = &test_rom()[0x134..0x150];
    assert!(parse_state(&snap, fp, 0x8000).is_some());
    assert!(parse_state(&snap[..snap.len() - 1], fp, 0x8000).is_none());
    // A snapshot for a cartridge with a different RAM size is refused.
    assert!(parse_state(&snap, fp, 0x2000).is_none());
    // Trailing bytes are ignored.
    let mut longer = snap.clone();
    longer.push(0);
    assert!(parse_state(&longer, fp, 0x8000).is_some());
}

#[test]
fn state_with_any_lcd_timing_loads_and_runs() {
    let mut gb = Gameboy::new(test_rom()).unwrap();
    let snap = gb.save_state();
    // LY lies at the PPU's 8th field: header 36, cpu 16, bus 0x8000 + 0x7F + 27,
    // cart 4 + 0x8000 + 45, then VRAM, bank, OAM, LCDC, STAT, SCY, SCX.
    let ly_at = 36 + 16 + (0x8000 + 0x7F + 31) + (4 + 0x8000 + 45) + 0x4000 + 1 + 0xA0 + 4;
    assert_eq!(snap[ly_at], gb.bus.ppu.ly);
    let mut odd = snap.clone();
    odd[ly_at] = 200;
    assert!(gb.load_state(&odd));
    assert_eq!(gb.bus.ppu.ly, 200);
    // Lines 200..=255 wrap to 0, so VBlank is 200 lines away: past the
    // cycle cap of one call, within the next.
    gb.run_frame();
    assert!(!gb.bus.ppu.frame_ready);
    gb.run_frame();
    assert!(gb.bus.ppu.frame_ready);
    assert_eq!(gb.bus.ppu.ly, 144);
}

#[test]
fn refused_load_leaves_machine_untouched() {
    let mut gb = Gameboy::new(test_rom()).unwrap();
    gb.run_frame();
    assert!(gb.bus.ppu.frame_ready);
    gb.bus.cart.ram_dirty = false;
    gb.bus.ppu.int_vblank = true;
    let before = gb.save_state();
    assert!(!gb.load_state(&[0x4F]));
    assert!(gb.bus.ppu.frame_ready);
    assert!(gb.bus.ppu.int_vblank);
    assert!(!gb.bus.cart.ram_dirty);
    assert_eq!(gb.save_state(), before);
}
