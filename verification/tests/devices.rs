use omaboy_core::apu::{Apu, MAX_FRAMES};
use omaboy_core::joypad::Joypad;
use omaboy_core::ppu::{Ppu, HEIGHT, WIDTH};
use omaboy_core::timer::Timer;

#[test]
fn timer_counts_on_falling_edges() {
    let mut t = Timer::new();
    assert_eq!(t.read(0xFF04), 0xAB);
    assert_eq!(t.read(0xFF07), 0xF8);
    // Enabled, tap on divider bit 3 (every 16 cycles).
    t.write(0xFF07, 0x05);
    assert_eq!(t.read(0xFF07), 0xFD);
    // The divider is at 0xABCC: bit 3 falls after 4 cycles.
    t.tick(4);
    assert_eq!(t.tima, 1);
    t.tick(16);
    assert_eq!(t.tima, 2);
    assert!(!t.interrupt);
}

#[test]
fn timer_overflow_reloads_and_requests_interrupt() {
    let mut t = Timer::new();
    t.write(0xFF07, 0x05);
    t.write(0xFF06, 0x10);
    t.write(0xFF05, 0xFF);
    t.tick(4);
    assert_eq!(t.tima, 0x10);
    assert!(t.interrupt);
}

#[test]
fn timer_disabled_does_not_count() {
    let mut t = Timer::new();
    t.tick(10_000);
    assert_eq!(t.tima, 0);
    assert_eq!(t.read(0xFF04), ((0xABCCu32 + 10_000) >> 8) as u8);
}

#[test]
fn div_write_resets_and_can_tick_tima() {
    let mut t = Timer::new();
    t.write(0xFF07, 0x05);
    // Bit 3 of the divider is set at 0xABCC: resetting it is a falling edge.
    t.write(0xFF04, 0x12);
    assert_eq!(t.read(0xFF04), 0);
    assert_eq!(t.tima, 1);
    t.reset_div();
    assert_eq!(t.read(0xFF04), 0);
}

#[test]
fn joypad_matrix() {
    let mut j = Joypad::new();
    assert_eq!(j.read(), 0xFF);
    j.set_buttons(0x01 | 0x10); // Right + A
    assert!(j.interrupt);
    j.write(0x20); // select directions
    assert_eq!(j.read(), 0xC0 | 0x20 | 0x0E);
    j.write(0x10); // select actions
    assert_eq!(j.read(), 0xC0 | 0x10 | 0x0E);
    j.write(0x00); // both groups
    assert_eq!(j.read(), 0xC0 | 0x0E);
}

#[test]
fn joypad_interrupt_only_on_new_press() {
    let mut j = Joypad::new();
    j.set_buttons(0x80);
    j.interrupt = false;
    j.set_buttons(0x80);
    assert!(!j.interrupt);
    j.set_buttons(0x00);
    assert!(!j.interrupt);
}

#[test]
fn ppu_line_timing() {
    let mut p = Ppu::new(false);
    assert_eq!(p.read_reg(0xFF44), 0);
    assert_eq!(p.read_reg(0xFF41) & 3, 2);
    p.tick(80);
    assert_eq!(p.read_reg(0xFF41) & 3, 3);
    p.tick(172);
    assert_eq!(p.read_reg(0xFF41) & 3, 0);
    p.tick(204);
    assert_eq!(p.read_reg(0xFF44), 1);
    p.tick(456 * 143);
    assert_eq!(p.read_reg(0xFF44), 144);
    assert_eq!(p.read_reg(0xFF41) & 3, 1);
    assert!(p.frame_ready);
    assert!(p.int_vblank);
    p.tick(456 * 10);
    assert_eq!(p.read_reg(0xFF44), 0);
}

#[test]
fn ppu_lyc_coincidence_flag() {
    let mut p = Ppu::new(false);
    p.write_reg(0xFF45, 2);
    assert_eq!(p.read_reg(0xFF41) & 0x04, 0);
    p.tick(456 * 2);
    assert_eq!(p.read_reg(0xFF41) & 0x04, 0x04);
}

#[test]
fn ppu_renders_background_tiles() {
    let mut p = Ppu::new(false);
    // Tile 0, row 0: every pixel has color index 1.
    p.write_vram(0x8000, 0xFF);
    p.write_vram(0x8001, 0x00);
    assert_eq!(p.read_vram(0x8000), 0xFF);
    p.tick(456 * 2);
    let shade1 = p.dmg_colors[((0xFCu8 >> 2) & 3) as usize];
    let shade0 = p.dmg_colors[(0xFCu8 & 3) as usize];
    assert!(p.framebuffer[0..WIDTH].iter().all(|&c| c == shade1));
    assert!(p.framebuffer[WIDTH..2 * WIDTH].iter().all(|&c| c == shade0));
    assert_eq!(p.framebuffer.len(), WIDTH * HEIGHT);
}

#[test]
fn ppu_lcd_off_resets_line() {
    let mut p = Ppu::new(false);
    p.tick(456 * 3);
    p.write_reg(0xFF40, 0x11);
    assert_eq!(p.read_reg(0xFF44), 0);
    assert_eq!(p.read_reg(0xFF41) & 3, 0);
    p.tick(1000);
    assert_eq!(p.read_reg(0xFF44), 0);
}

#[test]
fn ppu_cgb_palette_autoincrement() {
    let mut p = Ppu::new(true);
    p.write_reg(0xFF68, 0x80 | 0x02);
    p.write_reg(0xFF69, 0x1F);
    p.write_reg(0xFF69, 0x00);
    assert_eq!(p.bg_pal[2], 0x1F);
    assert_eq!(p.bg_pal[3], 0x00);
    assert_eq!(p.read_reg(0xFF68) & 0x3F, 4);
}

#[test]
fn apu_register_reads() {
    let mut a = Apu::new();
    assert_eq!(a.read(0xFF26), 0xF0);
    assert_eq!(a.read(0xFF24), 0x77);
    assert_eq!(a.read(0xFF25), 0xF3);
    assert_eq!(a.read(0xFF13), 0xFF);
    a.write(0xFF11, 0x80);
    assert_eq!(a.read(0xFF11), 0xBF);
    a.write(0xFF30, 0x12);
    assert_eq!(a.read(0xFF30), 0x12);
}

#[test]
fn apu_power_off_clears_registers() {
    let mut a = Apu::new();
    a.write(0xFF12, 0xF0);
    a.write(0xFF14, 0x80);
    assert_eq!(a.read(0xFF26) & 1, 1);
    a.write(0xFF26, 0x00);
    assert_eq!(a.read(0xFF26), 0x70);
    assert_eq!(a.read(0xFF12), 0x00);
    assert_eq!(a.read(0xFF24), 0x00);
    // Registers ignore writes while powered off; wave RAM does not.
    a.write(0xFF24, 0x55);
    assert_eq!(a.read(0xFF24), 0x00);
    a.write(0xFF31, 0x34);
    assert_eq!(a.read(0xFF31), 0x34);
}

#[test]
fn apu_records_one_frame_per_sample_period() {
    let mut a = Apu::new();
    // 4194304 cycles per second at 48000 frames per second.
    a.tick(4_194_304 / 100);
    assert_eq!(a.frames.len(), 479);
    a.tick(4_194_304);
    assert_eq!(a.frames.len(), MAX_FRAMES);
}

/// A DMG PPU with sprites on, OBP0 mapping color index i to shade i, tile 1
/// (row 0 all color 1) and tile 2 (row 0 all color 2).
fn sprite_ppu() -> Ppu {
    let mut p = Ppu::new(false);
    p.write_reg(0xFF40, 0x93);
    p.write_reg(0xFF48, 0xE4);
    p.write_vram(0x8010, 0xFF);
    p.write_vram(0x8011, 0x00);
    p.write_vram(0x8020, 0x00);
    p.write_vram(0x8021, 0xFF);
    p
}

/// OAM entry `entry` on line 0 at screen x `x`.
fn place_sprite(p: &mut Ppu, entry: usize, x: u8, tile: u8, attr: u8) {
    p.oam[entry * 4] = 16;
    p.oam[entry * 4 + 1] = x + 8;
    p.oam[entry * 4 + 2] = tile;
    p.oam[entry * 4 + 3] = attr;
}

#[test]
fn dmg_sprite_with_smaller_x_wins() {
    let mut p = sprite_ppu();
    place_sprite(&mut p, 0, 20, 1, 0);
    place_sprite(&mut p, 1, 16, 2, 0);
    p.tick(252);
    let (bg, one, two) = (p.dmg_colors[0], p.dmg_colors[1], p.dmg_colors[2]);
    assert_eq!(p.framebuffer[15], bg);
    assert!(p.framebuffer[16..24].iter().all(|&c| c == two));
    assert!(p.framebuffer[24..28].iter().all(|&c| c == one));
    assert_eq!(p.framebuffer[28], bg);
}

#[test]
fn oam_order_wins_with_object_priority_by_index() {
    let mut p = sprite_ppu();
    p.opri = true;
    place_sprite(&mut p, 0, 20, 1, 0);
    place_sprite(&mut p, 1, 16, 2, 0);
    p.tick(252);
    let (one, two) = (p.dmg_colors[1], p.dmg_colors[2]);
    assert!(p.framebuffer[16..20].iter().all(|&c| c == two));
    assert!(p.framebuffer[20..28].iter().all(|&c| c == one));
}

#[test]
fn at_most_ten_sprites_per_line() {
    let mut p = sprite_ppu();
    for i in 0..11 {
        place_sprite(&mut p, i, (i * 10) as u8, 1, 0);
    }
    p.tick(252);
    let (bg, one) = (p.dmg_colors[0], p.dmg_colors[1]);
    assert!(p.framebuffer[90..98].iter().all(|&c| c == one));
    assert!(p.framebuffer[100..108].iter().all(|&c| c == bg));
}

#[test]
fn background_priority_hides_sprite() {
    let mut p = sprite_ppu();
    // Background tile 0, row 0: color index 1 everywhere.
    p.write_vram(0x8000, 0xFF);
    place_sprite(&mut p, 0, 8, 2, 0x80);
    place_sprite(&mut p, 1, 40, 2, 0x00);
    p.tick(252);
    let bg1 = p.dmg_colors[((0xFCu8 >> 2) & 3) as usize];
    assert!(p.framebuffer[8..16].iter().all(|&c| c == bg1));
    assert!(p.framebuffer[40..48].iter().all(|&c| c == p.dmg_colors[2]));
}

#[test]
fn divider_counts_every_cycle() {
    let mut t = Timer::new();
    let div0 = t.div;
    t.tick(1000);
    assert_eq!(t.div, div0.wrapping_add(1000));
    t.tick(0xFFFF);
    assert_eq!(t.div, div0.wrapping_add(1000).wrapping_add(0xFFFF));
}

#[test]
fn two_ppu_ticks_are_one() {
    let mut a = Ppu::new(false);
    let mut b = Ppu::new(false);
    a.write_vram(0x8000, 0xFF);
    b.write_vram(0x8000, 0xFF);
    a.tick(1234);
    a.tick(70000);
    b.tick(71234);
    assert_eq!((a.ly, a.mode, a.dot), (b.ly, b.mode, b.dot));
    assert_eq!(a.framebuffer, b.framebuffer);
    assert_eq!((a.int_vblank, a.frame_ready, a.int_stat), (b.int_vblank, b.frame_ready, b.int_stat));
}
