use omaboy_core::gameboy::Gameboy;

fn cartridge(cgb: bool) -> Gameboy {
    let mut rom = vec![0u8; 0x8000];
    rom[0x134..0x138].copy_from_slice(b"TEST");
    if cgb {
        rom[0x143] = 0x80;
    }
    Gameboy::new(rom).unwrap()
}

#[test]
fn serial_transfer_shifts_in_ff_and_interrupts() {
    let mut gb = cartridge(false);
    gb.bus.write(0xFF01, 0x41);
    gb.bus.write(0xFF02, 0x81);
    gb.bus.tick(4095);
    assert!(gb.bus.serial_out.is_empty());
    assert_eq!(gb.bus.iff & 0x08, 0);
    gb.bus.tick(1);
    assert_eq!(gb.bus.serial_out, vec![0x41]);
    assert_eq!(gb.bus.read(0xFF01), 0xFF);
    assert_eq!(gb.bus.sc & 0x80, 0);
    assert_eq!(gb.bus.iff & 0x08, 0x08);
}

#[test]
fn vblank_request_reaches_interrupt_flags() {
    let mut gb = cartridge(false);
    gb.bus.iff = 0xE0;
    gb.bus.tick(456 * 144);
    assert_eq!(gb.bus.iff & 0x01, 0x01);
    assert!(!gb.bus.ppu.int_vblank);
    assert!(gb.bus.ppu.frame_ready);
}

#[test]
fn general_dma_copies_all_blocks_at_once() {
    let mut gb = cartridge(true);
    for i in 0..0x20u16 {
        gb.bus.write(0xC000 + i, (i as u8).wrapping_mul(7).wrapping_add(1));
    }
    gb.bus.write(0xFF51, 0xC0);
    gb.bus.write(0xFF52, 0x00);
    gb.bus.write(0xFF53, 0x01);
    gb.bus.write(0xFF54, 0x00);
    gb.bus.write(0xFF55, 0x01);
    for i in 0..0x20u16 {
        assert_eq!(gb.bus.read(0x8100 + i), (i as u8).wrapping_mul(7).wrapping_add(1));
    }
    assert_eq!(gb.bus.read(0x8120), 0);
    assert_eq!(gb.bus.read(0xFF55), 0xFF);
    assert_eq!(gb.bus.hdma_src, 0xC020);
    assert_eq!(gb.bus.hdma_dst, 0x0120);
}

#[test]
fn hblank_dma_copies_one_block_per_hblank() {
    let mut gb = cartridge(true);
    for i in 0..0x20u16 {
        gb.bus.write(0xC000 + i, 0x80 | i as u8);
    }
    gb.bus.write(0xFF51, 0xC0);
    gb.bus.write(0xFF52, 0x00);
    gb.bus.write(0xFF53, 0x00);
    gb.bus.write(0xFF54, 0x00);
    gb.bus.write(0xFF55, 0x81);
    assert_eq!(gb.bus.read(0xFF55), 0x01);
    // Line 0 enters HBlank at dot 252.
    gb.bus.tick(251);
    assert_eq!(gb.bus.read(0x8000), 0);
    gb.bus.tick(1);
    assert_eq!(gb.bus.read(0x800F), 0x8F);
    assert_eq!(gb.bus.read(0x8010), 0);
    assert_eq!(gb.bus.read(0xFF55), 0x00);
    gb.bus.tick(456);
    assert_eq!(gb.bus.read(0x801F), 0x9F);
    assert!(!gb.bus.hdma_active);
    assert_eq!(gb.bus.read(0xFF55), 0xFF);
}
