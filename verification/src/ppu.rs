//! Pixel Processing Unit: scanline renderer, DMG + CGB modes.
//!
//! Output is 160x144 0xFFRRGGBB pixels. In DMG mode the four shades map
//! through a configurable palette.

use vstd::prelude::*;

verus! {

pub const WIDTH: usize = 160;

pub const HEIGHT: usize = 144;

pub const MODE_HBLANK: u8 = 0;

pub const MODE_VBLANK: u8 = 1;

pub const MODE_OAM: u8 = 2;

pub const MODE_DRAW: u8 = 3;

/// One dot of LCD timing on the triple (mode, dot, line).
pub open spec fn timing_step(t: (u8, u32, u8)) -> (u8, u32, u8) {
    let (mode, dot, ly) = t;
    let d: u32 = if dot == 0xFFFF_FFFF { 0 } else { (dot + 1) as u32 };
    let next_ly: u8 = if ly == 255 { 0 } else { (ly + 1) as u8 };
    if mode == MODE_OAM {
        if d == 80 { (MODE_DRAW, d, ly) } else { (mode, d, ly) }
    } else if mode == MODE_DRAW {
        if d == 80 + 172 { (MODE_HBLANK, d, ly) } else { (mode, d, ly) }
    } else if mode == MODE_HBLANK {
        if d == 456 {
            if next_ly == 144 { (MODE_VBLANK, 0, next_ly) } else { (MODE_OAM, 0, next_ly) }
        } else {
            (mode, d, ly)
        }
    } else {
        if d == 456 {
            if next_ly > 153 { (MODE_OAM, 0, 0) } else { (mode, 0, next_ly) }
        } else {
            (mode, d, ly)
        }
    }
}

/// LCD timing after `n` dots.
pub open spec fn timing_run(t: (u8, u32, u8), n: nat) -> (u8, u32, u8)
    decreases n,
{
    if n == 0 {
        t
    } else {
        timing_run(timing_step(t), (n - 1) as nat)
    }
}

/// Mode and dot agree with the line: lines 0..=143 go OAM scan (80 dots),
/// pixel transfer (172 dots), HBlank, and lines 144..=153 are VBlank; every
/// line is 456 dots.
pub open spec fn timing_consistent(t: (u8, u32, u8)) -> bool {
    let (mode, dot, ly) = t;
    &&& dot < 456
    &&& ly <= 153
    &&& if ly < 144 {
        (mode == MODE_OAM && dot < 80) || (mode == MODE_DRAW && 80 <= dot < 252) || (mode
            == MODE_HBLANK && 252 <= dot)
    } else {
        mode == MODE_VBLANK
    }
}

/// Sprite height in lines for LCDC `lcdc` (bit 2: 8×16 sprites).
pub open spec fn sprite_height(lcdc: u8) -> int {
    if lcdc & 0x04 != 0 { 16 } else { 8 }
}

/// `x + 1`, wrapping to 0.
pub open spec fn wrap_inc16(x: u16) -> u16 {
    if x == 0xFFFF { 0 } else { (x + 1) as u16 }
}

/// 15-bit CGB color (`lo`, `hi` little-endian) as 0xFFRRGGBB; with
/// correction the channels are blended to approximate the CGB LCD.
pub open spec fn cgb_rgb(lo: u8, hi: u8, correction: bool) -> u32 {
    let raw: u16 = (lo as u16) | ((hi as u16) << 8u16);
    let r: u32 = (raw & 0x1F) as u32;
    let g: u32 = ((raw >> 5u16) & 0x1F) as u32;
    let b: u32 = ((raw >> 10u16) & 0x1F) as u32;
    if correction {
        let rs = r * 26 + g * 4 + b * 2;
        let gs = g * 24 + b * 8;
        let bs = r * 6 + g * 4 + b * 22;
        let rr: u32 = ((if rs < 960 { rs } else { 960 }) / 4) as u32;
        let gg: u32 = ((if gs < 960 { gs } else { 960 }) / 4) as u32;
        let bb: u32 = ((if bs < 960 { bs } else { 960 }) / 4) as u32;
        0xFF000000u32 | ((if rr < 255 { rr } else { 255u32 }) << 16u32) | ((if gg < 255 { gg } else { 255u32 }) << 8u32) | (if bb < 255 { bb } else { 255u32 })
    } else {
        0xFF000000u32 | (expand5(r) << 16u32) | (expand5(g) << 8u32) | expand5(b)
    }
}

/// Red intensity (0..=31) of the little-endian 15-bit CGB color `lo`, `hi`:
/// bits 0-4.
pub open spec fn red5(lo: u8, hi: u8) -> int {
    (lo % 32) as int
}

/// Green intensity: bits 5-9 (top three bits of `lo`, low two of `hi`).
pub open spec fn green5(lo: u8, hi: u8) -> int {
    lo / 32 + (hi % 4) * 8
}

/// Blue intensity: bits 10-14.
pub open spec fn blue5(lo: u8, hi: u8) -> int {
    ((hi / 4) % 32) as int
}

/// A 0..=31 intensity on the 0..=255 scale (31 maps to 255).
pub open spec fn widen5(c: int) -> int {
    c * 8 + c / 4
}

/// A blended channel sum on the 0..=255 scale, saturating.
pub open spec fn blend8(sum: int) -> int {
    let capped = if sum < 960 { sum } else { 960 };
    if capped / 4 < 255 { capped / 4 } else { 255 }
}

proof fn lemma_rgb_bits(lo: u8, hi: u8, x: u32, p: u32, q: u32, s: u32)
    by (bit_vector)
    requires
        x < 32,
        p <= 255,
        q <= 255,
        s <= 255,
    ensures
        ((((lo as u16) | ((hi as u16) << 8u16)) & 0x1F) as u32 == (lo % 32) as u32)
        && (((((lo as u16) | ((hi as u16) << 8u16)) >> 5u16) & 0x1F) as u32 == (lo / 32 + (hi % 4) * 8) as u32)
        && (((((lo as u16) | ((hi as u16) << 8u16)) >> 10u16) & 0x1F) as u32 == ((hi / 4) % 32) as u32)
        && ((x << 3u32) | (x >> 2u32)) == (x * 8 + x / 4) as u32
        && (0xFF000000u32 | (p << 16u32) | (q << 8u32) | s) == (0xFF000000 + p * 0x10000 + q * 0x100 + s) as u32,
{
}

/// How a CGB palette color becomes a pixel 0xFFRRGGBB: red is taken from
/// bits 0-4 of the 15-bit color, green from bits 5-9, blue from bits 10-14.
/// Without correction each is widened to 8 bits on its own; with correction
/// red is mostly red (26 parts red, 4 green, 2 blue), green mostly green
/// (24 green, 8 blue) and blue mostly blue (6 red, 4 green, 22 blue).
pub proof fn lemma_cgb_channels(lo: u8, hi: u8)
    ensures
        cgb_rgb(lo, hi, false) == 0xFF000000 + widen5(red5(lo, hi)) * 0x10000
            + widen5(green5(lo, hi)) * 0x100 + widen5(blue5(lo, hi)),
        cgb_rgb(lo, hi, true) == 0xFF000000
            + blend8(26 * red5(lo, hi) + 4 * green5(lo, hi) + 2 * blue5(lo, hi)) * 0x10000
            + blend8(24 * green5(lo, hi) + 8 * blue5(lo, hi)) * 0x100
            + blend8(6 * red5(lo, hi) + 4 * green5(lo, hi) + 22 * blue5(lo, hi)),
{
    let r = red5(lo, hi);
    let g = green5(lo, hi);
    let b = blue5(lo, hi);
    assert(0 <= r < 32 && 0 <= g < 32 && 0 <= b < 32);
    lemma_rgb_bits(lo, hi, r as u32, widen5(r) as u32, widen5(g) as u32, widen5(b) as u32);
    lemma_rgb_bits(lo, hi, g as u32, 0, 0, 0);
    lemma_rgb_bits(lo, hi, b as u32, 0, 0, 0);
    let rs = blend8(26 * r + 4 * g + 2 * b);
    let gs = blend8(24 * g + 8 * b);
    let bs = blend8(6 * r + 4 * g + 22 * b);
    lemma_rgb_bits(lo, hi, 0, rs as u32, gs as u32, bs as u32);
}

/// A 5-bit channel widened to 8 bits.
pub open spec fn expand5(c: u32) -> u32 {
    (c << 3u32) | (c >> 2u32)
}

pub struct Ppu {
    pub cgb: bool,
    /// Two banks of 0x2000.
    pub vram: Vec<u8>,
    pub vram_bank: usize,
    pub oam: Vec<u8>,
    pub lcdc: u8,
    pub stat: u8,
    pub scy: u8,
    pub scx: u8,
    pub ly: u8,
    pub lyc: u8,
    pub bgp: u8,
    pub obp0: u8,
    pub obp1: u8,
    pub wy: u8,
    pub wx: u8,
    /// OAM-index priority (CGB default) vs X priority (DMG).
    pub opri: bool,
    // CGB palette RAM
    pub bcps: u8,
    pub ocps: u8,
    pub bg_pal: Vec<u8>,
    pub ob_pal: Vec<u8>,
    pub mode: u8,
    pub dot: u32,
    pub window_line: u16,
    pub stat_line: bool,
    /// Palette for DMG shades 0..3 (0 = lightest on hardware).
    pub dmg_colors: [u32; 4],
    pub framebuffer: Vec<u32>,
    pub frame_ready: bool,
    /// Consumed by the bus for HBlank DMA.
    pub entered_hblank: bool,
    pub int_vblank: bool,
    pub int_stat: bool,
    /// Raw RGB555 vs color-corrected CGB output.
    pub color_correction: bool,
    // Per-line scratch: BG color index (0-3) and BG-priority flag per pixel.
    pub line_bg_index: Vec<u8>,
    pub line_bg_prio: Vec<bool>,
}

/// What advancing the dot clock changes in the PPU: LCD timing, the
/// window line counter, the STAT line, the event and interrupt flags, the
/// frame, and the last drawn line's background indices and priority flags.
#[verifier::ext_equal]
pub struct LcdModel {
    pub mode: u8,
    pub dot: u32,
    pub ly: u8,
    pub window_line: u16,
    pub stat_line: bool,
    pub int_vblank: bool,
    pub int_stat: bool,
    pub frame_ready: bool,
    pub entered_hblank: bool,
    pub frame: Seq<u32>,
    pub bg_index: Seq<u8>,
    pub bg_prio: Seq<bool>,
}

impl Ppu {
    /// Buffer sizes and the VRAM bank. Any LCD mode, dot, line and window
    /// line counter can be run.
    pub open spec fn wf(self) -> bool {
        self.buffers_ok()
    }

    /// Buffer sizes and the VRAM bank.
    pub open spec fn buffers_ok(self) -> bool {
        &&& self.vram@.len() == 0x4000
        &&& self.vram_bank <= 1
        &&& self.oam@.len() == 0xA0
        &&& self.bg_pal@.len() == 64
        &&& self.ob_pal@.len() == 64
        &&& self.framebuffer@.len() == WIDTH * HEIGHT
        &&& self.line_bg_index@.len() == WIDTH
        &&& self.line_bg_prio@.len() == WIDTH
    }

    pub open spec fn timing(self) -> (u8, u32, u8) {
        (self.mode, self.dot, self.ly)
    }

    pub open spec fn lcd_on_spec(self) -> bool {
        self.lcdc & 0x80 != 0
    }

    /// Whether the STAT interrupt line is high.
    pub open spec fn stat_condition(self) -> bool {
        ||| (self.stat & 0x40 != 0 && self.ly == self.lyc)
        ||| (self.mode == MODE_HBLANK && self.stat & 0x08 != 0)
        ||| (self.mode == MODE_VBLANK && self.stat & 0x10 != 0)
        ||| (self.mode == MODE_OAM && self.stat & 0x20 != 0)
        // OAM interrupt also fires on VBlank entry line
        ||| (self.mode == MODE_VBLANK && self.stat & 0x20 != 0 && self.ly == 144)
    }

    /// STAT line re-evaluated; a rising edge requests the STAT interrupt.
    pub open spec fn stat_updated(self) -> Ppu {
        if !self.lcd_on_spec() {
            Ppu { stat_line: false, ..self }
        } else {
            let line = self.stat_condition();
            Ppu { int_stat: self.int_stat || (line && !self.stat_line), stat_line: line, ..self }
        }
    }

    /// Offset into VRAM for a CPU address 0x8000..0x9FFF in the current bank.
    pub open spec fn vram_index(self, addr: u16) -> int {
        self.vram_bank * 0x2000 + (addr & 0x1FFF) as int
    }

    /// The value a CPU read of PPU register `addr` returns.
    pub open spec fn reg_value(self, addr: u16) -> u8 {
        if addr == 0xFF40 {
            self.lcdc
        } else if addr == 0xFF41 {
            0x80 | (self.stat & 0x78) | (if self.ly == self.lyc { 4u8 } else { 0 }) | (if self.lcd_on_spec() { self.mode } else { 0 })
        } else if addr == 0xFF42 {
            self.scy
        } else if addr == 0xFF43 {
            self.scx
        } else if addr == 0xFF44 {
            self.ly
        } else if addr == 0xFF45 {
            self.lyc
        } else if addr == 0xFF47 {
            self.bgp
        } else if addr == 0xFF48 {
            self.obp0
        } else if addr == 0xFF49 {
            self.obp1
        } else if addr == 0xFF4A {
            self.wy
        } else if addr == 0xFF4B {
            self.wx
        } else if addr == 0xFF4F {
            0xFE | (self.vram_bank as u8)
        } else if addr == 0xFF68 {
            self.bcps | 0x40
        } else if addr == 0xFF69 {
            self.bg_pal@[(self.bcps & 0x3F) as int]
        } else if addr == 0xFF6A {
            self.ocps | 0x40
        } else if addr == 0xFF6B {
            self.ob_pal@[(self.ocps & 0x3F) as int]
        } else if addr == 0xFF6C {
            0xFE | (if self.opri { 0u8 } else { 1 })
        } else {
            0xFF
        }
    }

    /// The PPU after a CPU write of `val` to register `addr` (all registers
    /// but the two palette data ports).
    pub open spec fn reg_written(self, addr: u16, val: u8) -> Ppu {
        if addr == 0xFF40 {
            let was_on = self.lcd_on_spec();
            let p = Ppu { lcdc: val, ..self };
            if was_on && !p.lcd_on_spec() {
                Ppu { ly: 0, dot: 0, mode: MODE_HBLANK, window_line: 0, ..p }
            } else if !was_on && p.lcd_on_spec() {
                Ppu { dot: 0, mode: MODE_OAM, ..p }.stat_updated()
            } else {
                p
            }
        } else if addr == 0xFF41 {
            Ppu { stat: (self.stat & 0x07) | (val & 0x78), ..self }.stat_updated()
        } else if addr == 0xFF42 {
            Ppu { scy: val, ..self }
        } else if addr == 0xFF43 {
            Ppu { scx: val, ..self }
        } else if addr == 0xFF45 {
            Ppu { lyc: val, ..self }.stat_updated()
        } else if addr == 0xFF47 {
            Ppu { bgp: val, ..self }
        } else if addr == 0xFF48 {
            Ppu { obp0: val, ..self }
        } else if addr == 0xFF49 {
            Ppu { obp1: val, ..self }
        } else if addr == 0xFF4A {
            Ppu { wy: val, ..self }
        } else if addr == 0xFF4B {
            Ppu { wx: val, ..self }
        } else if addr == 0xFF4F {
            if self.cgb { Ppu { vram_bank: (val & 1) as usize, ..self } } else { self }
        } else if addr == 0xFF68 {
            Ppu { bcps: val & 0xBF, ..self }
        } else if addr == 0xFF6A {
            Ppu { ocps: val & 0xBF, ..self }
        } else if addr == 0xFF6C {
            Ppu { opri: val & 1 == 0, ..self }
        } else {
            self
        }
    }

    /// `after` is this PPU after a CPU write of `val` to register `addr`:
    /// palette data writes store at the palette index (then advance it when
    /// auto-increment is on); other registers as `reg_written`.
    pub open spec fn reg_write_result(self, after: Ppu, addr: u16, val: u8) -> bool {
        if addr == 0xFF69 {
            &&& after == (Ppu { bg_pal: after.bg_pal, bcps: Ppu::pal_index_after_write(self.bcps), ..self })
            &&& after.bg_pal@ == self.bg_pal@.update((self.bcps & 0x3F) as int, val)
        } else if addr == 0xFF6B {
            &&& after == (Ppu { ob_pal: after.ob_pal, ocps: Ppu::pal_index_after_write(self.ocps), ..self })
            &&& after.ob_pal@ == self.ob_pal@.update((self.ocps & 0x3F) as int, val)
        } else {
            after == self.reg_written(addr, val)
        }
    }

    /// Palette index register after a data write: auto-increment in bit 7.
    pub open spec fn pal_index_after_write(ps: u8) -> u8 {
        if ps & 0x80 != 0 {
            0x80 | (((ps as int + 1) % 256) as u8 & 0x3F)
        } else {
            ps
        }
    }


    /// Whether the window covers line `y`.
    pub open spec fn window_active(self, y: int) -> bool {
        self.lcdc & 0x20 != 0 && self.wy as int <= y && self.wx < 167
    }

    /// Whether pixel `x` of line `y` shows the window rather than the background.
    pub open spec fn in_window(self, x: int, y: int) -> bool {
        self.window_active(y) && x + 7 >= self.wx as int
    }

    /// Horizontal position within the 256-pixel tile map.
    pub open spec fn bg_tx(self, x: int, y: int) -> int {
        if self.in_window(x, y) { x + 7 - self.wx as int } else { (x + self.scx as int) % 256 }
    }

    /// Vertical position within the tile map.
    pub open spec fn bg_ty(self, x: int, y: int) -> int {
        if self.in_window(x, y) { self.window_line as int } else { (y + self.scy as int) % 256 }
    }

    /// Index into VRAM bank 0 of the tile-map entry for pixel (`x`, `y`).
    pub open spec fn bg_map_index(self, x: int, y: int) -> int {
        let base: int = if self.in_window(x, y) {
            if self.lcdc & 0x40 != 0 { 0x1C00 } else { 0x1800 }
        } else {
            if self.lcdc & 0x08 != 0 { 0x1C00 } else { 0x1800 }
        };
        base + (self.bg_ty(x, y) / 8) * 32 + self.bg_tx(x, y) / 8
    }

    /// The VRAM byte at offset `i`; 0 past the end of VRAM (where a window
    /// line counter far beyond the screen puts the window's tile map).
    pub open spec fn vram_byte(self, i: int) -> u8 {
        if 0 <= i < self.vram@.len() { self.vram@[i] } else { 0 }
    }

    /// CGB tile attributes for pixel (`x`, `y`) (0 on DMG).
    pub open spec fn bg_attr(self, x: int, y: int) -> u8 {
        if self.cgb { self.vram_byte(0x2000 + self.bg_map_index(x, y)) } else { 0 }
    }

    /// VRAM offset of tile `tile_num` for background and window tiles.
    pub open spec fn bg_tile_addr(self, tile_num: u8) -> int {
        if self.lcdc & 0x10 != 0 {
            tile_num * 16
        } else if tile_num < 128 {
            0x1000 + tile_num * 16
        } else {
            0x1000 + (tile_num - 256) * 16
        }
    }

    /// VRAM offset of the tile row holding pixel (`x`, `y`).
    pub open spec fn bg_row_addr(self, x: int, y: int) -> int {
        let attr = self.bg_attr(x, y);
        let py: int = if attr & 0x40 != 0 { 7 - self.bg_ty(x, y) % 8 } else { self.bg_ty(x, y) % 8 };
        ((attr >> 3u8) & 1) * 0x2000 + self.bg_tile_addr(self.vram_byte(self.bg_map_index(x, y))) + py * 2
    }

    /// Bit position within the tile row bytes for pixel (`x`, `y`).
    pub open spec fn bg_bit(self, x: int, y: int) -> u8 {
        let attr = self.bg_attr(x, y);
        let px: int = if attr & 0x20 != 0 { 7 - self.bg_tx(x, y) % 8 } else { self.bg_tx(x, y) % 8 };
        (7 - px) as u8
    }

    /// Background/window color index (0..=3) of pixel (`x`, `y`).
    pub open spec fn bg_color_index(self, x: int, y: int) -> u8 {
        let row = self.bg_row_addr(x, y);
        let bit = self.bg_bit(x, y);
        (((self.vram@[row + 1] >> bit) & 1) << 1u8) | ((self.vram@[row] >> bit) & 1)
    }

    /// Color of shade `idx` through a DMG palette register.
    pub open spec fn dmg_shade(self, pal: u8, idx: u8) -> u32 {
        self.dmg_colors[((pal >> (idx * 2) as u8) & 3) as int]
    }

    /// Color of entry `idx` of CGB palette `palette` in palette RAM `ram`.
    pub open spec fn cgb_shade(self, ram: Seq<u8>, palette: int, idx: u8) -> u32 {
        cgb_rgb(ram[palette * 8 + idx * 2], ram[palette * 8 + idx * 2 + 1], self.color_correction)
    }

    /// Background/window output color of pixel (`x`, `y`).
    pub open spec fn bg_pixel(self, x: int, y: int) -> u32 {
        let idx = self.bg_color_index(x, y);
        if self.cgb {
            self.cgb_shade(self.bg_pal@, (self.bg_attr(x, y) & 0x07) as int, idx)
        } else {
            self.dmg_shade(self.bgp, idx)
        }
    }

    /// Sprite `i` (OAM entry) spans line `y`.
    pub open spec fn sprite_on_line(self, i: int, y: int) -> bool {
        let sy = self.oam@[4 * i] - 16;
        sy <= y < sy + sprite_height(self.lcdc)
    }

    /// The sprites on line `y` among OAM entries `0..n`, in OAM order, at
    /// most ten: (OAM index, screen x).
    pub open spec fn oam_scan(self, y: int, n: nat) -> Seq<(usize, i32)>
        decreases n,
    {
        if n == 0 {
            Seq::empty()
        } else {
            let prev = self.oam_scan(y, (n - 1) as nat);
            let i = n - 1;
            if prev.len() < 10 && self.sprite_on_line(i, y) {
                prev.push((i as usize, (self.oam@[4 * i + 1] - 8) as i32))
            } else {
                prev
            }
        }
    }

    /// Color index of column `px` (0..8, left to right on screen) of sprite
    /// `si` on line `y`, after flips; 0 is transparent.
    pub open spec fn sprite_color_index(self, y: int, si: int, px: int) -> u8 {
        let sy = self.oam@[4 * si] - 16;
        let h = sprite_height(self.lcdc);
        let tile0 = self.oam@[4 * si + 2];
        let tile = if self.lcdc & 0x04 != 0 { tile0 & 0xFE } else { tile0 };
        let attr = self.oam@[4 * si + 3];
        let bank: int = if self.cgb { ((attr >> 3u8) & 1) as int } else { 0 };
        let row0 = y - sy;
        let row = if attr & 0x40 != 0 { h - 1 - row0 } else { row0 };
        let addr = bank * 0x2000 + tile * 16 + row * 2;
        let lo = self.vram@[addr];
        let hi = self.vram@[addr + 1];
        let bit: u8 = if attr & 0x20 != 0 { px as u8 } else { (7 - px) as u8 };
        (((hi >> bit) & 1) << 1u8) | ((lo >> bit) & 1)
    }

    /// Sprite `e` has an opaque pixel at screen column `x` of line `y`.
    pub open spec fn sprite_covers(self, y: int, e: (usize, i32), x: int) -> bool {
        &&& self.sprite_on_line(e.0 as int, y)
        &&& 0 <= x - e.1 < 8
        &&& self.sprite_color_index(y, e.0 as int, x - e.1) != 0
    }

    /// Background priority hides sprite `e` at column `x` (CGB: only while
    /// LCDC bit 0 gives the background priority).
    pub open spec fn sprite_hidden(self, e: (usize, i32), x: int) -> bool {
        self.sprite_hidden_by(e, self.line_bg_index@[x], self.line_bg_prio@[x])
    }

    /// Background priority hides sprite `e` over a background pixel of
    /// color index `bg_idx` whose tile has the priority flag `bg_prio`.
    pub open spec fn sprite_hidden_by(self, e: (usize, i32), bg_idx: u8, bg_prio: bool) -> bool {
        let attr = self.oam@[4 * e.0 + 3];
        let master = !self.cgb || self.lcdc & 0x01 != 0;
        master && bg_idx != 0 && (attr & 0x80 != 0 || (self.cgb && bg_prio))
    }

    /// Output color of sprite `e` at column `x` of line `y`.
    pub open spec fn sprite_pixel(self, y: int, e: (usize, i32), x: int) -> u32 {
        let attr = self.oam@[4 * e.0 + 3];
        let idx = self.sprite_color_index(y, e.0 as int, x - e.1);
        if self.cgb {
            self.cgb_shade(self.ob_pal@, (attr & 0x07) as int, idx)
        } else {
            self.dmg_shade(if attr & 0x10 != 0 { self.obp1 } else { self.obp0 }, idx)
        }
    }

    /// The first of the sprites `vis[0..n]` (in drawing order) with an opaque
    /// pixel at column `x`: it owns that pixel.
    pub open spec fn sprite_owner(self, y: int, vis: Seq<(usize, i32)>, n: nat, x: int) -> Option<(usize, i32)>
        decreases n,
    {
        if n == 0 {
            None
        } else {
            match self.sprite_owner(y, vis, (n - 1) as nat, x) {
                Some(o) => Some(o),
                None => if self.sprite_covers(y, vis[n - 1], x) { Some(vis[n - 1]) } else { None },
            }
        }
    }

    /// Pixel `x` of line `y` after drawing sprites `vis[0..n]` over it: the
    /// owner's color unless the background hides it.
    pub open spec fn sprite_result(self, y: int, vis: Seq<(usize, i32)>, n: nat, x: int) -> u32 {
        match self.sprite_owner(y, vis, n, x) {
            None => self.framebuffer@[y * WIDTH + x],
            Some(o) => if self.sprite_hidden(o, x) { self.framebuffer@[y * WIDTH + x] } else { self.sprite_pixel(y, o, x) },
        }
    }

    /// The sprites of line `y` in drawing order: the first ten on the line
    /// in OAM order; with DMG priority (OPRI clear) sorted by screen x, ties
    /// by OAM index.
    pub open spec fn sprite_order(self, y: int) -> Seq<(usize, i32)> {
        let scan = self.oam_scan(y, 40);
        if self.opri { scan } else { scan.sort_by(sprite_le_fn()) }
    }

    /// Pixel `x` of line `y` once the line's sprites are drawn over a
    /// background pixel `base` of color index `bg_idx` and priority flag
    /// `bg_prio`.
    pub open spec fn sprite_line_pixel(self, y: int, x: int, base: u32, bg_idx: u8, bg_prio: bool) -> u32 {
        let vis = self.sprite_order(y);
        match self.sprite_owner(y, vis, vis.len(), x) {
            None => base,
            Some(o) => if self.sprite_hidden_by(o, bg_idx, bg_prio) { base } else { self.sprite_pixel(y, o, x) },
        }
    }

    /// Output pixel (`x`, `y`) of a scanline drawn from this state: the
    /// background/window pixel (DMG with LCDC bit 0 clear: color 0, over
    /// which no sprite hides), then the line's sprites when LCDC bit 1 is set.
    pub open spec fn scanline_pixel(self, y: int, x: int) -> u32 {
        let bg_on = self.cgb || self.lcdc & 0x01 != 0;
        let base = if bg_on { self.bg_pixel(x, y) } else { self.dmg_colors[0] };
        let idx: u8 = if bg_on { self.bg_color_index(x, y) } else { 0 };
        let prio = bg_on && self.bg_attr(x, y) & 0x80 != 0;
        if self.lcdc & 0x02 != 0 { self.sprite_line_pixel(y, x, base, idx, prio) } else { base }
    }

    pub open spec fn lcd_model(self) -> LcdModel {
        LcdModel {
            mode: self.mode,
            dot: self.dot,
            ly: self.ly,
            window_line: self.window_line,
            stat_line: self.stat_line,
            int_vblank: self.int_vblank,
            int_stat: self.int_stat,
            frame_ready: self.frame_ready,
            entered_hblank: self.entered_hblank,
            frame: self.framebuffer@,
            bg_index: self.line_bg_index@,
            bg_prio: self.line_bg_prio@,
        }
    }

    /// This PPU with the clocked state of `m`.
    pub open spec fn with_model(self, m: LcdModel) -> Ppu {
        Ppu { mode: m.mode, dot: m.dot, ly: m.ly, window_line: m.window_line, ..self }
    }

    /// STAT line re-evaluated in state `m` (LCD on); a rising edge requests
    /// the STAT interrupt.
    pub open spec fn model_stat(self, m: LcdModel) -> LcdModel {
        let line = self.with_model(m).stat_condition();
        LcdModel { int_stat: m.int_stat || (line && !m.stat_line), stat_line: line, ..m }
    }

    /// Line `m.ly` drawn into the frame; the line buffers and the window
    /// line counter follow. Lines below the screen draw nothing.
    pub open spec fn model_render(self, m: LcdModel) -> LcdModel {
        let p = self.with_model(m);
        let y = m.ly as int;
        let bg_on = self.cgb || self.lcdc & 0x01 != 0;
        if y >= HEIGHT { m } else { LcdModel {
            frame: Seq::new(m.frame.len(), |i: int| if y * WIDTH <= i < y * WIDTH + WIDTH {
                p.scanline_pixel(y, i - y * WIDTH)
            } else {
                m.frame[i]
            }),
            window_line: if bg_on && p.window_active(y) { wrap_inc16(m.window_line) } else { m.window_line },
            bg_index: Seq::new(WIDTH as nat, |x: int| if bg_on { p.bg_color_index(x, y) } else { 0u8 }),
            bg_prio: Seq::new(WIDTH as nat, |x: int| bg_on && p.bg_attr(x, y) & 0x80 != 0),
            ..m
        } }
    }

    /// One dot with the LCD on: mode changes at the schedule's edges, the
    /// line is drawn on entering HBlank, VBlank raises its interrupt and
    /// the frame-ready flag, and each mode or line change re-evaluates STAT.
    pub open spec fn model_dot(self, m: LcdModel) -> LcdModel {
        let d: u32 = if m.dot == 0xFFFF_FFFF { 0 } else { (m.dot + 1) as u32 };
        let next_ly: u8 = if m.ly == 255 { 0 } else { (m.ly + 1) as u8 };
        if m.mode == MODE_OAM {
            LcdModel { mode: if d == 80 { MODE_DRAW } else { m.mode }, dot: d, ..m }
        } else if m.mode == MODE_DRAW {
            if d == 80 + 172 {
                self.model_stat(LcdModel { mode: MODE_HBLANK, dot: d, entered_hblank: true, ..self.model_render(m) })
            } else {
                LcdModel { dot: d, ..m }
            }
        } else if m.mode == MODE_HBLANK {
            if d == 456 {
                if next_ly == 144 {
                    self.model_stat(LcdModel {
                        mode: MODE_VBLANK,
                        dot: 0,
                        ly: next_ly,
                        int_vblank: true,
                        frame_ready: true,
                        ..m
                    })
                } else {
                    self.model_stat(LcdModel { mode: MODE_OAM, dot: 0, ly: next_ly, ..m })
                }
            } else {
                LcdModel { dot: d, ..m }
            }
        } else {
            if d == 456 {
                if next_ly > 153 {
                    self.model_stat(LcdModel { mode: MODE_OAM, dot: 0, ly: 0, window_line: 0, ..m })
                } else {
                    self.model_stat(LcdModel { dot: 0, ly: next_ly, ..m })
                }
            } else {
                LcdModel { dot: d, ..m }
            }
        }
    }

    /// The clocked state after `n` dots (nothing moves with the LCD off).
    pub open spec fn run_model(self, n: nat) -> LcdModel {
        if self.lcd_on_spec() { self.model_run(self.lcd_model(), n) } else { self.lcd_model() }
    }

    /// `n` dots with the LCD on.
    pub open spec fn model_run(self, m: LcdModel, n: nat) -> LcdModel
        decreases n,
    {
        if n == 0 {
            m
        } else {
            self.model_run(self.model_dot(m), (n - 1) as nat)
        }
    }

    /// The power-on state (the DMG shade colors and the color-correction
    /// choice aside): VRAM and OAM cleared, LCD on at the start of line 0,
    /// palette RAM all 0xFF, a black frame, and no events pending.
    pub open spec fn powered(self, cgb: bool) -> bool {
        &&& self.cgb == cgb
        &&& self.vram@ == Seq::new(0x4000, |i: int| 0u8)
        &&& self.vram_bank == 0
        &&& self.oam@ == Seq::new(0xA0, |i: int| 0u8)
        &&& self.lcdc == 0x91 && self.stat == 0x85 && self.scy == 0 && self.scx == 0
        &&& self.ly == 0 && self.lyc == 0
        &&& self.bgp == 0xFC && self.obp0 == 0xFF && self.obp1 == 0xFF
        &&& self.wy == 0 && self.wx == 0
        &&& self.opri == cgb
        &&& self.bcps == 0 && self.ocps == 0
        &&& self.bg_pal@ == Seq::new(64, |i: int| 0xFFu8)
        &&& self.ob_pal@ == Seq::new(64, |i: int| 0xFFu8)
        &&& self.mode == MODE_OAM && self.dot == 0 && self.window_line == 0
        &&& !self.stat_line
        &&& self.framebuffer@ == Seq::new((WIDTH * HEIGHT) as nat, |i: int| 0xFF000000u32)
        &&& !self.frame_ready && !self.entered_hblank && !self.int_vblank && !self.int_stat
        &&& self.line_bg_index@ == Seq::new(WIDTH as nat, |i: int| 0u8)
        &&& self.line_bg_prio@ == Seq::new(WIDTH as nat, |i: int| false)
    }

    pub fn new(cgb: bool) -> (p: Ppu)
        ensures
            p.wf(),
            p.powered(cgb),
            p.dmg_colors == [0xFFE0F8D0u32, 0xFF88C070u32, 0xFF346856u32, 0xFF081820u32],
            p.color_correction,
    {
        let p = Ppu {
            cgb,
            vram: vec![0u8; 0x4000],
            vram_bank: 0,
            oam: vec![0u8; 0xA0],
            lcdc: 0x91,
            stat: 0x85,
            scy: 0,
            scx: 0,
            ly: 0,
            lyc: 0,
            bgp: 0xFC,
            obp0: 0xFF,
            obp1: 0xFF,
            wy: 0,
            wx: 0,
            opri: cgb,
            bcps: 0,
            ocps: 0,
            bg_pal: vec![0xFFu8; 64],
            ob_pal: vec![0xFFu8; 64],
            mode: MODE_OAM,
            dot: 0,
            window_line: 0,
            stat_line: false,
            dmg_colors: [0xFFE0F8D0u32, 0xFF88C070u32, 0xFF346856u32, 0xFF081820u32],
            framebuffer: vec![0xFF000000u32; WIDTH * HEIGHT],
            frame_ready: false,
            entered_hblank: false,
            int_vblank: false,
            int_stat: false,
            color_correction: true,
            line_bg_index: vec![0u8; WIDTH],
            line_bg_prio: vec![false; WIDTH],
        };
        proof {
            assert(p.vram@ =~= Seq::new(0x4000, |i: int| 0u8));
            assert(p.oam@ =~= Seq::new(0xA0, |i: int| 0u8));
            assert(p.bg_pal@ =~= Seq::new(64, |i: int| 0xFFu8));
            assert(p.ob_pal@ =~= Seq::new(64, |i: int| 0xFFu8));
            assert(p.framebuffer@ =~= Seq::new((WIDTH * HEIGHT) as nat, |i: int| 0xFF000000u32));
            assert(p.line_bg_index@ =~= Seq::new(WIDTH as nat, |i: int| 0u8));
            assert(p.line_bg_prio@ =~= Seq::new(WIDTH as nat, |i: int| false));
            assert(0x91u8 & 0x80 != 0) by (bit_vector);
        }
        p
    }

    fn lcd_on(&self) -> (b: bool)
        ensures
            b == self.lcd_on_spec(),
    {
        self.lcdc & 0x80 != 0
    }

    pub fn read_vram(&self, addr: u16) -> (v: u8)
        requires
            self.wf(),
        ensures
            v == self.vram@[self.vram_index(addr)],
    {
        let i = (addr & 0x1FFF) as usize;
        proof { crate::bits::lemma_and_le_u16(addr, 0x1FFF); }
        self.vram[self.vram_bank * 0x2000 + i]
    }

    pub fn write_vram(&mut self, addr: u16, val: u8)
        requires
            old(self).wf(),
        ensures
            final(self).wf(),
            *final(self) == (Ppu { vram: final(self).vram, ..*old(self) }),
            final(self).vram@ == old(self).vram@.update(old(self).vram_index(addr), val),
    {
        let i = (addr & 0x1FFF) as usize;
        proof { crate::bits::lemma_and_le_u16(addr, 0x1FFF); }
        let j = self.vram_bank * 0x2000 + i;
        self.vram.set(j, val);
    }

    pub fn read_reg(&self, addr: u16) -> (v: u8)
        requires
            self.wf(),
        ensures
            v == self.reg_value(addr),
    {
        match addr {
            0xFF40 => self.lcdc,
            0xFF41 => {
                let coincidence: u8 = if self.ly == self.lyc { 1 } else { 0 };
                let m = if self.lcd_on() { self.mode } else { 0 };
                let r = 0x80 | (self.stat & 0x78) | (coincidence << 2u8) | m;
                let st = self.stat;
                assert(r == 0x80 | (st & 0x78) | (if coincidence == 1 { 4u8 } else { 0 }) | m) by (bit_vector)
                    requires r == 0x80 | (st & 0x78) | (coincidence << 2u8) | m, coincidence == 0 || coincidence == 1;
                r
            },
            0xFF42 => self.scy,
            0xFF43 => self.scx,
            0xFF44 => self.ly,
            0xFF45 => self.lyc,
            0xFF47 => self.bgp,
            0xFF48 => self.obp0,
            0xFF49 => self.obp1,
            0xFF4A => self.wy,
            0xFF4B => self.wx,
            0xFF4F => 0xFE | self.vram_bank as u8,
            0xFF68 => self.bcps | 0x40,
            0xFF69 => {
                let i = (self.bcps & 0x3F) as usize;
                proof { crate::bits::lemma_and_le_u8(self.bcps, 0x3F); }
                self.bg_pal[i]
            },
            0xFF6A => self.ocps | 0x40,
            0xFF6B => {
                let i = (self.ocps & 0x3F) as usize;
                proof { crate::bits::lemma_and_le_u8(self.ocps, 0x3F); }
                self.ob_pal[i]
            },
            0xFF6C => 0xFE | (if self.opri { 0u8 } else { 1 }),
            _ => 0xFF,
        }
    }

    #[verifier::rlimit(60)]
    #[verifier::spinoff_prover]
    pub fn write_reg(&mut self, addr: u16, val: u8)
        requires
            old(self).wf(),
        ensures
            final(self).wf(),
            old(self).reg_write_result(*final(self), addr, val),
    {
        match addr {
            0xFF40 => {
                let was_on = self.lcd_on();
                self.lcdc = val;
                if was_on && !self.lcd_on() {
                    self.ly = 0;
                    self.dot = 0;
                    self.mode = MODE_HBLANK;
                    self.window_line = 0;
                } else if !was_on && self.lcd_on() {
                    self.dot = 0;
                    self.mode = MODE_OAM;
                    self.update_stat_irq();
                }
            },
            0xFF41 => {
                self.stat = (self.stat & 0x07) | (val & 0x78);
                self.update_stat_irq();
            },
            0xFF42 => self.scy = val,
            0xFF43 => self.scx = val,
            0xFF45 => {
                self.lyc = val;
                self.update_stat_irq();
            },
            0xFF47 => self.bgp = val,
            0xFF48 => self.obp0 = val,
            0xFF49 => self.obp1 = val,
            0xFF4A => self.wy = val,
            0xFF4B => self.wx = val,
            0xFF4F => {
                if self.cgb {
                    self.vram_bank = (val & 1) as usize;
                    proof { crate::bits::lemma_and_le_u8(val, 1); }
                }
            },
            0xFF68 => self.bcps = val & 0xBF,
            0xFF69 => {
                let i = (self.bcps & 0x3F) as usize;
                proof { crate::bits::lemma_and_le_u8(self.bcps, 0x3F); }
                self.bg_pal.set(i, val);
                if self.bcps & 0x80 != 0 {
                    self.bcps = 0x80 | (self.bcps.wrapping_add(1) & 0x3F);
                }
            },
            0xFF6A => self.ocps = val & 0xBF,
            0xFF6B => {
                let i = (self.ocps & 0x3F) as usize;
                proof { crate::bits::lemma_and_le_u8(self.ocps, 0x3F); }
                self.ob_pal.set(i, val);
                if self.ocps & 0x80 != 0 {
                    self.ocps = 0x80 | (self.ocps.wrapping_add(1) & 0x3F);
                }
            },
            0xFF6C => self.opri = val & 1 == 0,
            _ => {},
        }
    }

    /// Advance the PPU by `dots` (4.19 MHz cycles).
    #[verifier::spinoff_prover]
    pub fn tick(&mut self, dots: u32)
        requires
            old(self).wf(),
        ensures
            final(self).wf(),
            final(self).timing() == (if old(self).lcd_on_spec() {
                timing_run(old(self).timing(), dots as nat)
            } else {
                old(self).timing()
            }),
            final(self).lcd_model() == old(self).run_model(dots as nat),
            *final(self) == old(self).clocked(*final(self)),
    {
        if !self.lcd_on() {
            return;
        }
        let ghost start = *self;
        let mut i: u32 = 0;
        while i < dots
            invariant
                i <= dots,
                self.wf(),
                start.lcd_on_spec(),
                self.timing() == timing_run(start.timing(), i as nat),
                self.lcd_model() == start.model_run(start.lcd_model(), i as nat),
                *self == start.clocked(*self),
            decreases dots - i,
        {
            proof {
                lemma_timing_run_step(start.timing(), i as nat);
                start.lemma_model_run_step(start.lcd_model(), i as nat);
                self.lemma_model_dot_frame(start, self.lcd_model());
            }
            self.step_dot();
            i = i + 1;
        }
    }

    /// This PPU with the clocked state of `after`.
    pub open spec fn clocked(self, after: Ppu) -> Ppu {
        Ppu {
            mode: after.mode,
            dot: after.dot,
            ly: after.ly,
            window_line: after.window_line,
            stat_line: after.stat_line,
            int_vblank: after.int_vblank,
            int_stat: after.int_stat,
            frame_ready: after.frame_ready,
            entered_hblank: after.entered_hblank,
            framebuffer: after.framebuffer,
            line_bg_index: after.line_bg_index,
            line_bg_prio: after.line_bg_prio,
            ..self
        }
    }

    /// One dot with the LCD on.
    #[verifier::rlimit(80)]
    #[verifier::spinoff_prover]
    fn step_dot(&mut self)
        requires
            old(self).wf(),
            old(self).lcd_on_spec(),
        ensures
            final(self).wf(),
            final(self).timing() == timing_step(old(self).timing()),
            final(self).lcd_model() == old(self).model_dot(old(self).lcd_model()),
            *final(self) == old(self).clocked(*final(self)),
    {
        let ghost start = *self;
        let ghost m = self.lcd_model();
        self.dot = self.dot.wrapping_add(1);
        match self.mode {
            MODE_OAM => {
                if self.dot == 80 {
                    self.mode = MODE_DRAW;
                }
            },
            MODE_DRAW => {
                if self.dot == 80 + 172 {
                    let ghost before = *self;
                    self.render_scanline();
                    proof {
                        let r = start.model_render(m);
                        let p = start.with_model(m);
                        let y = m.ly as int;
                        assert forall|x: int| 0 <= x < WIDTH implies
                            before.scanline_pixel(y, x) == p.scanline_pixel(y, x) by {
                            before.lemma_scanline_frame(p, y, x);
                        }
                        assert forall|i: int| 0 <= i < self.framebuffer@.len() implies
                            self.framebuffer@[i] == r.frame[i] by {
                            if y * WIDTH <= i < y * WIDTH + WIDTH {
                                assert(self.framebuffer@[y * WIDTH + (i - y * WIDTH)] == before.scanline_pixel(y, i - y * WIDTH));
                            }
                        }
                        assert(self.framebuffer@ =~= r.frame);
                        assert(self.line_bg_index@ =~= r.bg_index);
                        assert(self.line_bg_prio@ =~= r.bg_prio);
                    }
                    self.mode = MODE_HBLANK;
                    self.entered_hblank = true;
                    self.update_stat_irq();
                }
            },
            MODE_HBLANK => {
                if self.dot == 456 {
                    self.dot = 0;
                    self.ly = self.ly.wrapping_add(1);
                    if self.ly == 144 {
                        self.mode = MODE_VBLANK;
                        self.int_vblank = true;
                        self.frame_ready = true;
                    } else {
                        self.mode = MODE_OAM;
                    }
                    self.update_stat_irq();
                }
            },
            _ => {
                // VBLANK
                if self.dot == 456 {
                    self.dot = 0;
                    self.ly = self.ly.wrapping_add(1);
                    if self.ly > 153 {
                        self.ly = 0;
                        self.window_line = 0;
                        self.mode = MODE_OAM;
                    }
                    self.update_stat_irq();
                }
            },
        }
    }

    /// STAT interrupt line: rising-edge triggered ("STAT blocking").
    fn update_stat_irq(&mut self)
        ensures
            *final(self) == old(self).stat_updated(),
    {
        if !self.lcd_on() {
            self.stat_line = false;
            return;
        }
        let mut line = false;
        if self.stat & 0x40 != 0 && self.ly == self.lyc {
            line = true;
        }
        match self.mode {
            MODE_HBLANK if self.stat & 0x08 != 0 => line = true,
            MODE_VBLANK if self.stat & 0x10 != 0 => line = true,
            // OAM interrupt also fires on VBlank entry line
            MODE_OAM if self.stat & 0x20 != 0 => line = true,
            MODE_VBLANK if self.stat & 0x20 != 0 && self.ly == 144 => line = true,
            _ => {},
        }
        if line && !self.stat_line {
            self.int_stat = true;
        }
        self.stat_line = line;
    }

    #[verifier::rlimit(60)]
    #[verifier::spinoff_prover]
    fn render_scanline(&mut self)
        requires
            old(self).buffers_ok(),
        ensures
            final(self).buffers_ok(),
            old(self).ly >= 144 ==> *final(self) == *old(self),
            *final(self) == (Ppu {
                framebuffer: final(self).framebuffer,
                line_bg_index: final(self).line_bg_index,
                line_bg_prio: final(self).line_bg_prio,
                window_line: final(self).window_line,
                ..*old(self)
            }),
            old(self).ly < 144 ==> final(self).window_line == (if (old(self).cgb || old(self).lcdc & 0x01 != 0)
                && old(self).window_active(old(self).ly as int) { wrap_inc16(old(self).window_line) } else { old(self).window_line }),
            old(self).ly < 144 ==> forall|i: int| 0 <= i < WIDTH * HEIGHT && !(old(self).ly * WIDTH <= i < old(self).ly * WIDTH + WIDTH)
                ==> #[trigger] final(self).framebuffer@[i] == old(self).framebuffer@[i],
            old(self).ly < 144 ==> forall|x: int| 0 <= x < WIDTH ==> #[trigger] final(self).framebuffer@[old(self).ly * WIDTH + x]
                == old(self).scanline_pixel(old(self).ly as int, x),
            old(self).ly < 144 ==> forall|x: int| 0 <= x < WIDTH ==> #[trigger] final(self).line_bg_index@[x]
                == (if old(self).cgb || old(self).lcdc & 0x01 != 0 { old(self).bg_color_index(x, old(self).ly as int) } else { 0u8 }),
            old(self).ly < 144 ==> forall|x: int| 0 <= x < WIDTH ==> #[trigger] final(self).line_bg_prio@[x]
                == ((old(self).cgb || old(self).lcdc & 0x01 != 0) && old(self).bg_attr(x, old(self).ly as int) & 0x80 != 0),
    {
        let ghost start = *self;
        let y = self.ly as usize;
        if y >= HEIGHT {
            return;
        }
        self.line_bg_index = vec![0u8; WIDTH];
        self.line_bg_prio = vec![false; WIDTH];

        // LCDC bit 0: DMG = BG+window off (white); CGB = sprites lose priority.
        let bg_enabled = self.cgb || self.lcdc & 0x01 != 0;
        if bg_enabled {
            self.render_bg_line(y);
        } else {
            let c = self.dmg_colors[0];
            self.fill_line(y, c);
        }
        let ghost mid = *self;
        proof {
            assert forall|x: int| 0 <= x < WIDTH implies
                mid.framebuffer@[y * WIDTH + x] == (if bg_enabled { start.bg_pixel(x, y as int) } else { start.dmg_colors[0] })
                && mid.line_bg_index@[x] == (if bg_enabled { start.bg_color_index(x, y as int) } else { 0u8 })
                && mid.line_bg_prio@[x] == (bg_enabled && start.bg_attr(x, y as int) & 0x80 != 0) by {}
        }
        if self.lcdc & 0x02 != 0 {
            self.render_sprites_line(y);
            proof {
                assert forall|x: int| 0 <= x < WIDTH implies #[trigger] self.framebuffer@[y * WIDTH + x]
                    == start.scanline_pixel(y as int, x) by {
                    lemma_sprite_line_frame(mid, start, y as int, x, mid.framebuffer@[y * WIDTH + x],
                        mid.line_bg_index@[x], mid.line_bg_prio@[x]);
                }
            }
        }
    }

    /// Paint line `y` in a single color.
    fn fill_line(&mut self, y: usize, c: u32)
        requires
            old(self).buffers_ok(),
            y < HEIGHT,
        ensures
            final(self).buffers_ok(),
            *final(self) == (Ppu { framebuffer: final(self).framebuffer, ..*old(self) }),
            forall|x: int| 0 <= x < WIDTH ==> #[trigger] final(self).framebuffer@[y * WIDTH + x] == c,
            forall|i: int| 0 <= i < WIDTH * HEIGHT && !(y * WIDTH <= i < y * WIDTH + WIDTH)
                ==> #[trigger] final(self).framebuffer@[i] == old(self).framebuffer@[i],
    {
        let ghost start = *self;
        let mut x: usize = 0;
        while x < WIDTH
            invariant
                x <= WIDTH,
                y < HEIGHT,
                self.buffers_ok(),
                *self == (Ppu { framebuffer: self.framebuffer, ..start }),
                forall|k: int| 0 <= k < x ==> #[trigger] self.framebuffer@[y * WIDTH + k] == c,
                forall|i: int| 0 <= i < WIDTH * HEIGHT && !(y * WIDTH <= i < y * WIDTH + x)
                    ==> #[trigger] self.framebuffer@[i] == start.framebuffer@[i],
            decreases WIDTH - x,
        {
            self.framebuffer.set(y * WIDTH + x, c);
            x = x + 1;
        }
    }

    /// Render background and window for line `y`; records each pixel's color
    /// index and priority flag for sprite priority.
    #[verifier::rlimit(60)]
    #[verifier::spinoff_prover]
    fn render_bg_line(&mut self, y: usize)
        requires
            old(self).buffers_ok(),
            y < HEIGHT,
        ensures
            final(self).buffers_ok(),
            *final(self) == (Ppu {
                framebuffer: final(self).framebuffer,
                line_bg_index: final(self).line_bg_index,
                line_bg_prio: final(self).line_bg_prio,
                window_line: final(self).window_line,
                ..*old(self)
            }),
            final(self).window_line == (if old(self).window_active(y as int) { wrap_inc16(old(self).window_line) } else { old(self).window_line }),
            forall|x: int| 0 <= x < WIDTH ==> #[trigger] final(self).framebuffer@[y * WIDTH + x] == old(self).bg_pixel(x, y as int),
            forall|x: int| 0 <= x < WIDTH ==> #[trigger] final(self).line_bg_index@[x] == old(self).bg_color_index(x, y as int),
            forall|x: int| 0 <= x < WIDTH ==> #[trigger] final(self).line_bg_prio@[x] == (old(self).bg_attr(x, y as int) & 0x80 != 0),
            forall|i: int| 0 <= i < WIDTH * HEIGHT && !(y * WIDTH <= i < y * WIDTH + WIDTH)
                ==> #[trigger] final(self).framebuffer@[i] == old(self).framebuffer@[i],
    {
        let ghost start = *self;
        let window_active = self.lcdc & 0x20 != 0 && self.wy as usize <= y && self.wx < 167;
        let mut window_drawn = false;
        let mut x: usize = 0;
        while x < WIDTH
            invariant
                x <= WIDTH,
                y < HEIGHT,
                start.buffers_ok(),
                self.buffers_ok(),
                *self == (Ppu {
                    framebuffer: self.framebuffer,
                    line_bg_index: self.line_bg_index,
                    line_bg_prio: self.line_bg_prio,
                    ..start
                }),
                window_active == start.window_active(y as int),
                window_drawn == (x > 0 && start.in_window(x - 1, y as int)),
                forall|k: int| 0 <= k < x ==> #[trigger] self.framebuffer@[y * WIDTH + k] == start.bg_pixel(k, y as int),
                forall|k: int| 0 <= k < x ==> #[trigger] self.line_bg_index@[k] == start.bg_color_index(k, y as int),
                forall|k: int| 0 <= k < x ==> #[trigger] self.line_bg_prio@[k] == (start.bg_attr(k, y as int) & 0x80 != 0),
                forall|i: int| 0 <= i < WIDTH * HEIGHT && !(y * WIDTH <= i < y * WIDTH + x)
                    ==> #[trigger] self.framebuffer@[i] == start.framebuffer@[i],
            decreases WIDTH - x,
        {
            let in_window = window_active && x + 7 >= self.wx as usize;
            if in_window {
                window_drawn = true;
            }
            let (color, color_idx, priority) = self.bg_pixel_at(x, y);
            self.line_bg_index.set(x, color_idx);
            self.line_bg_prio.set(x, priority);
            self.framebuffer.set(y * WIDTH + x, color);
            x = x + 1;
        }

        if window_drawn {
            self.window_line = self.window_line.wrapping_add(1);
        }
        proof {
            if window_active {
                assert(start.in_window(WIDTH - 1, y as int));
            }
        }
    }

    /// Color, color index and BG-priority flag of background/window pixel (`x`, `y`).
    #[verifier::rlimit(60)]
    #[verifier::spinoff_prover]
    fn bg_pixel_at(&self, x: usize, y: usize) -> (r: (u32, u8, bool))
        requires
            self.buffers_ok(),
            x < WIDTH,
            y < HEIGHT,
        ensures
            r.0 == self.bg_pixel(x as int, y as int),
            r.1 == self.bg_color_index(x as int, y as int),
            r.2 == (self.bg_attr(x as int, y as int) & 0x80 != 0),
    {
        let window_active = self.lcdc & 0x20 != 0 && self.wy as usize <= y && self.wx < 167;
        let in_window = window_active && x + 7 >= self.wx as usize;
        let map_base: usize;
        let tx: usize;
        let ty: usize;
        if in_window {
            tx = x + 7 - self.wx as usize;
            ty = self.window_line as usize;
            map_base = if self.lcdc & 0x40 != 0 { 0x1C00 } else { 0x1800 };
        } else {
            tx = (x + self.scx as usize) % 256;
            ty = (y + self.scy as usize) % 256;
            map_base = if self.lcdc & 0x08 != 0 { 0x1C00 } else { 0x1800 };
        }
        assert(tx < 256 && ty < 0x10000);
        assert(in_window == self.in_window(x as int, y as int));
        assert(tx == self.bg_tx(x as int, y as int));
        assert(ty == self.bg_ty(x as int, y as int));
        let map_idx = map_base + (ty / 8) * 32 + tx / 8;
        assert(map_idx == self.bg_map_index(x as int, y as int));
        // A window line counter far beyond the screen (only from a loaded
        // state) points past VRAM; those reads give 0.
        let tile_num = if map_idx < 0x4000 { self.vram[map_idx] } else { 0 };
        let attr: u8 = if !self.cgb {
            0
        } else if 0x2000 + map_idx < 0x4000 {
            self.vram[0x2000 + map_idx]
        } else {
            0
        };
        assert(attr == self.bg_attr(x as int, y as int));

        let tile_bank = ((attr >> 3u8) & 1) as usize;
        let palette = (attr & 0x07) as usize;
        let x_flip = attr & 0x20 != 0;
        let y_flip = attr & 0x40 != 0;
        let priority = attr & 0x80 != 0;
        proof {
            crate::bits::lemma_and_le_u8(attr >> 3u8, 1);
            crate::bits::lemma_and_le_u8(attr, 0x07);
        }

        let mut py = ty % 8;
        if y_flip {
            py = 7 - py;
        }
        let mut px = tx % 8;
        if x_flip {
            px = 7 - px;
        }

        let tile_addr: usize = if self.lcdc & 0x10 != 0 {
            tile_num as usize * 16
        } else if tile_num < 128 {
            0x1000 + tile_num as usize * 16
        } else {
            0x1000 - (256 - tile_num as usize) * 16
        };
        assert(tile_addr == self.bg_tile_addr(tile_num));
        let row = tile_bank * 0x2000 + tile_addr + py * 2;
        assert(row == self.bg_row_addr(x as int, y as int));
        let bit = (7 - px) as u8;
        assert(bit == self.bg_bit(x as int, y as int));
        let lo = (self.vram[row] >> bit) & 1;
        let hi = (self.vram[row + 1] >> bit) & 1;
        let color_idx = (hi << 1u8) | lo;
        proof {
            crate::bits::lemma_and_le_u8(self.vram@[row as int] >> bit, 1);
            crate::bits::lemma_and_le_u8(self.vram@[row + 1] >> bit, 1);
        }
        assert(color_idx <= 3) by (bit_vector)
            requires color_idx == (hi << 1u8) | lo, hi <= 1, lo <= 1;


        let color = if self.cgb {
            self.cgb_color(true, palette, color_idx)
        } else {
            let sh = (self.bgp >> (color_idx * 2)) & 3;
            proof { crate::bits::lemma_and_le_u8(self.bgp >> (color_idx * 2), 3); }
            self.dmg_colors[sh as usize]
        };
        (color, color_idx, priority)
    }

    #[verifier::rlimit(60)]
    #[verifier::spinoff_prover]
    fn render_sprites_line(&mut self, y: usize)
        requires
            old(self).buffers_ok(),
            y < HEIGHT,
        ensures
            final(self).buffers_ok(),
            *final(self) == (Ppu { framebuffer: final(self).framebuffer, ..*old(self) }),
            forall|i: int| 0 <= i < WIDTH * HEIGHT && !(y * WIDTH <= i < y * WIDTH + WIDTH)
                ==> #[trigger] final(self).framebuffer@[i] == old(self).framebuffer@[i],
            forall|x: int| 0 <= x < WIDTH ==> #[trigger] final(self).framebuffer@[y * WIDTH + x]
                == old(self).sprite_line_pixel(y as int, x, old(self).framebuffer@[y * WIDTH + x],
                    old(self).line_bg_index@[x], old(self).line_bg_prio@[x]),
    {
        let ghost start = *self;
        let tall = self.lcdc & 0x04 != 0;
        let height: i32 = if tall { 16 } else { 8 };

        // Collect first 10 visible sprites in OAM order: (oam index, x).
        let mut visible: Vec<(usize, i32)> = Vec::new();
        let mut i: usize = 0;
        while i < 40
            invariant_except_break
                visible@.len() < 10,
            invariant
                i <= 40,
                y < HEIGHT,
                height == sprite_height(start.lcdc),
                self.buffers_ok(),
                *self == start,
                visible@ == start.oam_scan(y as int, i as nat),
            ensures
                visible@ == start.oam_scan(y as int, 40),
            decreases 40 - i,
        {
            proof { lemma_oam_scan_bounds(start, y as int, i as nat); }
            let sy = self.oam[i * 4] as i32 - 16;
            if (y as i32) >= sy && (y as i32) < sy + height {
                visible.push((i, self.oam[i * 4 + 1] as i32 - 8));
            }
            i = i + 1;
            if visible.len() == 10 {
                proof { lemma_oam_scan_full(start, y as int, i as nat, 40); }
                break;
            }
        }
        proof { lemma_oam_scan_bounds(start, y as int, 40); }
        // DMG: smaller X wins; ties broken by OAM index. CGB: OAM index wins.
        if !self.opri {
            sort_by_x_then_index(&mut visible);
        }
        let ghost vis = visible@;
        assert(vis == start.sprite_order(y as int));

        let mut sprite_drawn: Vec<bool> = vec![false; WIDTH];
        let mut n: usize = 0;
        while n < visible.len()
            invariant
                y < HEIGHT,
                self.buffers_ok(),
                *self == (Ppu { framebuffer: self.framebuffer, ..start }),
                visible@ == vis,
                n <= vis.len(),
                sprite_drawn@.len() == WIDTH,
                tall == (start.lcdc & 0x04 != 0),
                forall|k: int| 0 <= k < vis.len() ==> (#[trigger] vis[k]).0 < 40,
                forall|k: int| 0 <= k < WIDTH * HEIGHT && !(y * WIDTH <= k < y * WIDTH + WIDTH)
                    ==> #[trigger] self.framebuffer@[k] == start.framebuffer@[k],
                forall|x: int| 0 <= x < WIDTH ==> #[trigger] sprite_drawn@[x]
                    == start.sprite_owner(y as int, vis, n as nat, x) is Some,
                forall|x: int| 0 <= x < WIDTH ==> #[trigger] self.framebuffer@[y * WIDTH + x]
                    == start.sprite_result(y as int, vis, n as nat, x),
            decreases vis.len() - n,
        {
            let (si, sx) = visible[n];
            let ghost cur = *self;
            self.draw_sprite(y, si, sx, tall, &mut sprite_drawn);
            proof {
                assert forall|x: int| 0 <= x < WIDTH implies
                    cur.sprite_covers(y as int, (si, sx), x) == start.sprite_covers(y as int, vis[n as int], x)
                    && cur.sprite_hidden((si, sx), x) == start.sprite_hidden(vis[n as int], x)
                    && cur.sprite_pixel(y as int, (si, sx), x) == start.sprite_pixel(y as int, vis[n as int], x) by {}
            }
            n = n + 1;
        }
    }

    /// Draw the pixels of sprite `si` (screen x `sx`) that fall on line `y`
    /// and are not owned by an earlier sprite.
    #[verifier::rlimit(60)]
    #[verifier::spinoff_prover]
    fn draw_sprite(&mut self, y: usize, si: usize, sx: i32, tall: bool, sprite_drawn: &mut Vec<bool>)
        requires
            old(self).buffers_ok(),
            y < HEIGHT,
            si < 40,
            old(sprite_drawn)@.len() == WIDTH,
            tall == (old(self).lcdc & 0x04 != 0),
        ensures
            final(self).buffers_ok(),
            *final(self) == (Ppu { framebuffer: final(self).framebuffer, ..*old(self) }),
            final(sprite_drawn)@.len() == WIDTH,
            forall|k: int| 0 <= k < WIDTH * HEIGHT && !(y * WIDTH <= k < y * WIDTH + WIDTH)
                ==> #[trigger] final(self).framebuffer@[k] == old(self).framebuffer@[k],
            forall|x: int| 0 <= x < WIDTH ==> #[trigger] final(sprite_drawn)@[x] == (old(sprite_drawn)@[x]
                || old(self).sprite_covers(y as int, (si, sx), x)),
            forall|x: int| 0 <= x < WIDTH ==> #[trigger] final(self).framebuffer@[y * WIDTH + x] == (if !old(sprite_drawn)@[x]
                && old(self).sprite_covers(y as int, (si, sx), x) && !old(self).sprite_hidden((si, sx), x) {
                old(self).sprite_pixel(y as int, (si, sx), x)
            } else {
                old(self).framebuffer@[y * WIDTH + x]
            }),
    {
        let ghost start = *self;
        let ghost drawn0 = sprite_drawn@;
        let ghost e = (si, sx);
        let height: i32 = if tall { 16 } else { 8 };
        let sy = self.oam[si * 4] as i32 - 16;
        if !((y as i32) >= sy && (y as i32) < sy + height) {
            return;
        }
        let mut tile = self.oam[si * 4 + 2];
        let attr = self.oam[si * 4 + 3];
        if tall {
            tile = tile & 0xFE;
        }
        let x_flip = attr & 0x20 != 0;
        let y_flip = attr & 0x40 != 0;
        let behind_bg = attr & 0x80 != 0;
        let bank: usize = if self.cgb { ((attr >> 3u8) & 1) as usize } else { 0 };
        proof { crate::bits::lemma_and_le_u8(attr >> 3u8, 1); crate::bits::lemma_and_le_u8(attr, 7); }

        let mut row = (y as i32 - sy) as usize;
        if y_flip {
            row = height as usize - 1 - row;
        }
        let addr = bank * 0x2000 + tile as usize * 16 + row * 2;
        let lo_byte = self.vram[addr];
        let hi_byte = self.vram[addr + 1];

        let pal_no = (attr & 0x07) as usize;
        let mut px: i32 = 0;
        while px < 8
            invariant
                0 <= px <= 8,
                pal_no < 8,
                pal_no == (attr & 0x07) as usize,
                y < HEIGHT,
                si < 40,
                e == (si, sx),
                start.sprite_on_line(si as int, y as int),
                attr == start.oam@[4 * si + 3],
                lo_byte == start.vram@[addr as int],
                hi_byte == start.vram@[addr as int + 1],
                x_flip == (attr & 0x20 != 0),
                behind_bg == (attr & 0x80 != 0),
                forall|q: int| 0 <= q < 8 ==> #[trigger] start.sprite_color_index(y as int, si as int, q)
                    == ((((hi_byte >> (if x_flip { q as u8 } else { (7 - q) as u8 })) & 1) << 1u8)
                        | ((lo_byte >> (if x_flip { q as u8 } else { (7 - q) as u8 })) & 1)),
                self.buffers_ok(),
                *self == (Ppu { framebuffer: self.framebuffer, ..start }),
                sprite_drawn@.len() == WIDTH,
                forall|k: int| 0 <= k < WIDTH * HEIGHT && !(y * WIDTH <= k < y * WIDTH + WIDTH)
                    ==> #[trigger] self.framebuffer@[k] == start.framebuffer@[k],
                forall|x: int| 0 <= x < WIDTH ==> #[trigger] sprite_drawn@[x] == (drawn0[x]
                    || (x - sx < px && start.sprite_covers(y as int, e, x))),
                forall|x: int| 0 <= x < WIDTH ==> #[trigger] self.framebuffer@[y * WIDTH + x] == (if !drawn0[x]
                    && x - sx < px && start.sprite_covers(y as int, e, x) && !start.sprite_hidden(e, x) {
                    start.sprite_pixel(y as int, e, x)
                } else {
                    start.framebuffer@[y * WIDTH + x]
                }),
            decreases 8 - px,
        {
            let x = sx as i64 + px as i64;
            if 0 <= x && x < WIDTH as i64 {
                let x = x as usize;
                if !sprite_drawn[x] {
                    let bit: u8 = if x_flip { px as u8 } else { (7 - px) as u8 };
                    let lo = (lo_byte >> bit) & 1;
                    let hi = (hi_byte >> bit) & 1;
                    proof {
                        crate::bits::lemma_and_le_u8(lo_byte >> bit, 1);
                        crate::bits::lemma_and_le_u8(hi_byte >> bit, 1);
                    }
                    let color_idx = (hi << 1u8) | lo;
                    assert(color_idx <= 3) by (bit_vector)
                        requires color_idx == (hi << 1u8) | lo, hi <= 1, lo <= 1;
                    proof {
                        assert(color_idx == start.sprite_color_index(y as int, si as int, px as int));
                    }
                    if color_idx != 0 {
                        // BG-vs-OBJ priority. CGB LCDC bit0 = master priority: when
                        // clear, sprites always win.
                        let bg_idx = self.line_bg_index[x];
                        let master = !self.cgb || self.lcdc & 0x01 != 0;
                        if master && bg_idx != 0 && (behind_bg || (self.cgb && self.line_bg_prio[x])) {
                            sprite_drawn.set(x, true);
                        } else {
                            let color = if self.cgb {
                                self.cgb_color(false, pal_no, color_idx)
                            } else {
                                let pal = if attr & 0x10 != 0 { self.obp1 } else { self.obp0 };
                                let sh = (pal >> (color_idx * 2)) & 3;
                                proof { crate::bits::lemma_and_le_u8(pal >> (color_idx * 2), 3); }
                                self.dmg_colors[sh as usize]
                            };
                            self.framebuffer.set(y * WIDTH + x, color);
                            sprite_drawn.set(x, true);
                        }
                    }
                }
            }
            px = px + 1;
        }
    }

    /// Color of entry `color_idx` of a CGB palette (background palette RAM
    /// when `bg`, otherwise object palette RAM).
    fn cgb_color(&self, bg: bool, palette: usize, color_idx: u8) -> (c: u32)
        requires
            self.buffers_ok(),
            palette < 8,
            color_idx < 4,
        ensures
            c == self.cgb_shade(if bg { self.bg_pal@ } else { self.ob_pal@ }, palette as int, color_idx),
    {
        let off = palette * 8 + color_idx as usize * 2;
        let (lo, hi) = if bg {
            (self.bg_pal[off], self.bg_pal[off + 1])
        } else {
            (self.ob_pal[off], self.ob_pal[off + 1])
        };
        let raw = lo as u16 | ((hi as u16) << 8u16);
        let r = (raw & 0x1F) as u32;
        let g = ((raw >> 5u16) & 0x1F) as u32;
        let b = ((raw >> 10u16) & 0x1F) as u32;
        proof {
            crate::bits::lemma_and_le_u16(raw, 0x1F);
            crate::bits::lemma_and_le_u16(raw >> 5u16, 0x1F);
            crate::bits::lemma_and_le_u16(raw >> 10u16, 0x1F);
        }
        if self.color_correction {
            // Blend channels to approximate the CGB LCD's muted response.
            let rs = r * 26 + g * 4 + b * 2;
            let gs = g * 24 + b * 8;
            let bs = r * 6 + g * 4 + b * 22;
            let rr = (if rs < 960 { rs } else { 960 }) / 4;
            let gg = (if gs < 960 { gs } else { 960 }) / 4;
            let bb = (if bs < 960 { bs } else { 960 }) / 4;
            0xFF000000u32 | ((if rr < 255 { rr } else { 255u32 }) << 16u32) | ((if gg < 255 { gg } else { 255u32 }) << 8u32) | (if bb < 255 { bb } else { 255u32 })
        } else {
            0xFF000000u32 | (((r << 3u32) | (r >> 2u32)) << 16u32) | (((g << 3u32) | (g >> 2u32)) << 8u32) | ((b << 3u32) | (b >> 2u32))
        }
    }
}

/// Sprite `a` comes before sprite `b` in DMG drawing order: smaller screen
/// x first, then smaller OAM index.
pub open spec fn key_lt(a: (usize, i32), b: (usize, i32)) -> bool {
    a.1 < b.1 || (a.1 == b.1 && a.0 < b.0)
}

/// Swapping two elements keeps the multiset of elements.
pub proof fn lemma_swap_multiset<A>(s: Seq<A>, i: int, j: int)
    requires
        0 <= i < j < s.len(),
    ensures
        s.update(i, s[j]).update(j, s[i]).to_multiset() == s.to_multiset(),
{
    broadcast use vstd::seq_lib::to_multiset_update, vstd::seq_lib::to_multiset_contains;
    broadcast use vstd::multiset::group_multiset_axioms;

    let s1 = s.update(i, s[j]);
    assert(s1[j] == s[j]);
    assert(s.contains(s[i]));
    assert(s.contains(s[j]));
    assert(s1.update(j, s[i]).to_multiset() =~= s.to_multiset());
}

/// Order sprites by screen x, ties by OAM index (insertion sort).
fn sort_by_x_then_index(v: &mut Vec<(usize, i32)>)
    requires
        forall|k: int| 0 <= k < old(v)@.len() ==> (#[trigger] old(v)@[k]).0 < 40,
    ensures
        final(v)@ == old(v)@.sort_by(sprite_le_fn()),
        forall|k: int| 0 <= k < final(v)@.len() ==> (#[trigger] final(v)@[k]).0 < 40,
{
    let ghost orig = v@;
    let n = v.len();
    let mut i: usize = 1;
    while i < n
        invariant
            n == v@.len(),
            1 <= i || n == 0,
            i <= n || n == 0,
            v@.to_multiset() == orig.to_multiset(),
            forall|a: int, b: int| 0 <= a < b < i && b < n ==> !key_lt(#[trigger] v@[b], #[trigger] v@[a]),
            forall|k: int| 0 <= k < v@.len() ==> (#[trigger] v@[k]).0 < 40,
        decreases n - i,
    {
        let mut j: usize = i;
        while j > 0 && (v[j].1 < v[j - 1].1 || (v[j].1 == v[j - 1].1 && v[j].0 < v[j - 1].0))
            invariant
                n == v@.len(),
                0 <= j <= i < n,
                v@.to_multiset() == orig.to_multiset(),
                // v[0..=i] is sorted except that v[j] may be smaller than its left neighbours
                forall|a: int, b: int| 0 <= a < b <= i && b != j ==> !key_lt(#[trigger] v@[b], #[trigger] v@[a]),
                forall|a: int, b: int| j <= a < b <= i ==> !key_lt(#[trigger] v@[b], #[trigger] v@[a]),
                j > 0 && j < i ==> !key_lt(v@[j + 1], v@[j - 1]),
                forall|k: int| 0 <= k < v@.len() ==> (#[trigger] v@[k]).0 < 40,
            decreases j,
        {
            let a = v[j - 1];
            let b = v[j];
            proof {
                lemma_swap_multiset(v@, j - 1, j as int);
                assert(v@.update(j - 1, b).update(j as int, a) == v@.update(j - 1, v@[j as int]).update(j as int, v@[j - 1]));
            }
            v.set(j - 1, b);
            v.set(j, a);
            j = j - 1;
        }
        i = i + 1;
    }
    proof {
        let le = sprite_le_fn();
        lemma_sprite_le_total();
        orig.lemma_sort_by_ensures(le);
        assert forall|a: int, b: int| 0 <= a < b < v@.len() implies #[trigger] le(v@[a], v@[b]) by {
            assert(!key_lt(v@[b], v@[a]));
        }
        vstd::seq_lib::lemma_sorted_unique(v@, orig.sort_by(le), le);
    }
}

/// Drawing order of sprites with DMG priority, as a total order: screen x,
/// then OAM index.
pub open spec fn sprite_le(a: (usize, i32), b: (usize, i32)) -> bool {
    key_lt(a, b) || a == b
}

pub open spec fn sprite_le_fn() -> spec_fn((usize, i32), (usize, i32)) -> bool {
    |a: (usize, i32), b: (usize, i32)| sprite_le(a, b)
}

/// The sprite drawing order is a total order.
pub proof fn lemma_sprite_le_total()
    ensures
        vstd::relations::total_ordering(sprite_le_fn()),
{
    let le = sprite_le_fn();
    assert(vstd::relations::reflexive(le));
    assert(vstd::relations::antisymmetric(le));
    assert(vstd::relations::transitive(le));
    assert(vstd::relations::strongly_connected(le));
}

impl Ppu {
    /// Running `n + 1` dots is running `n` dots and then one more.
    pub proof fn lemma_model_run_step(self, m: LcdModel, n: nat)
        ensures
            self.model_run(m, n + 1) == self.model_dot(self.model_run(m, n)),
        decreases n,
    {
        if n == 0 {
            assert(self.model_run(m, 1) == self.model_run(self.model_dot(m), 0));
        } else {
            self.lemma_model_run_step(self.model_dot(m), (n - 1) as nat);
            assert(self.model_run(m, n) == self.model_run(self.model_dot(m), (n - 1) as nat));
            assert(self.model_run(m, n + 1) == self.model_run(self.model_dot(m), n));
        }
    }

    /// Running `a` dots and then `b` more is running `a + b` dots.
    pub proof fn lemma_model_run_compose(self, m: LcdModel, a: nat, b: nat)
        ensures
            self.model_run(self.model_run(m, a), b) == self.model_run(m, a + b),
        decreases a,
    {
        if a > 0 {
            self.lemma_model_run_compose(self.model_dot(m), (a - 1) as nat, b);
            assert(self.model_run(m, a + b) == self.model_run(self.model_dot(m), (a - 1 + b) as nat));
        }
    }

    /// Runs of dots depend on the registers and memories, not on the
    /// clocked state the PPU holds.
    pub proof fn lemma_model_run_frame(self, b: Ppu, m: LcdModel, n: nat)
        requires
            self == b.clocked(self),
        ensures
            self.model_run(m, n) == b.model_run(m, n),
        decreases n,
    {
        if n > 0 {
            self.lemma_model_dot_frame(b, m);
            self.lemma_model_run_frame(b, self.model_dot(m), (n - 1) as nat);
        }
    }

    /// Two ticks are one: ticking `a` dots and then `b` more clocks the PPU
    /// as one tick of `a + b` dots would.
    pub proof fn lemma_ticks_compose(self, q: Ppu, a: nat, b: nat)
        requires
            q == self.clocked(q),
            q.lcd_model() == self.run_model(a),
        ensures
            q.run_model(b) == self.run_model(a + b),
    {
        if self.lcd_on_spec() {
            q.lemma_model_run_frame(self, q.lcd_model(), b);
            self.lemma_model_run_compose(self.lcd_model(), a, b);
        }
    }

    /// A dot's effect depends on the registers and memories, not on the
    /// clocked state the PPU holds.
    pub proof fn lemma_model_dot_frame(self, b: Ppu, m: LcdModel)
        requires
            self == b.clocked(self),
        ensures
            self.model_dot(m) == b.model_dot(m),
    {
        let ra = self.model_render(m);
        let rb = b.model_render(m);
        let y = m.ly as int;
        assert forall|i: int| 0 <= i < ra.frame.len() implies ra.frame[i] == rb.frame[i] by {
            if y * WIDTH <= i < y * WIDTH + WIDTH {
                self.with_model(m).lemma_scanline_frame(b.with_model(m), y, i - y * WIDTH);
            }
        }
        assert(ra.frame =~= rb.frame);
        assert(ra.bg_index =~= rb.bg_index);
        assert(ra.bg_prio =~= rb.bg_prio);
        assert(ra == rb);
    }

    /// A drawn scanline depends only on VRAM, OAM, the registers, the
    /// palettes and the window line counter.
    pub proof fn lemma_scanline_frame(self, b: Ppu, y: int, x: int)
        requires
            self.oam@ == b.oam@,
            self.vram@ == b.vram@,
            self.lcdc == b.lcdc,
            self.cgb == b.cgb,
            self.opri == b.opri,
            self.bg_pal@ == b.bg_pal@,
            self.ob_pal@ == b.ob_pal@,
            self.bgp == b.bgp,
            self.obp0 == b.obp0,
            self.obp1 == b.obp1,
            self.scx == b.scx,
            self.scy == b.scy,
            self.wx == b.wx,
            self.wy == b.wy,
            self.window_line == b.window_line,
            self.dmg_colors == b.dmg_colors,
            self.color_correction == b.color_correction,
        ensures
            self.scanline_pixel(y, x) == b.scanline_pixel(y, x),
    {
        let bg_on = b.cgb || b.lcdc & 0x01 != 0;
        let base = if bg_on { b.bg_pixel(x, y) } else { b.dmg_colors[0] };
        let idx: u8 = if bg_on { b.bg_color_index(x, y) } else { 0 };
        let prio = bg_on && b.bg_attr(x, y) & 0x80 != 0;
        lemma_sprite_line_frame(self, b, y, x, base, idx, prio);
    }
}

/// The sprites drawn on a line depend only on OAM, VRAM, the registers and
/// the palettes, not on the frame or the line buffers.
pub proof fn lemma_sprite_line_frame(a: Ppu, b: Ppu, y: int, x: int, base: u32, bg_idx: u8, bg_prio: bool)
    requires
        a.oam@ == b.oam@,
        a.vram@ == b.vram@,
        a.lcdc == b.lcdc,
        a.cgb == b.cgb,
        a.opri == b.opri,
        a.ob_pal@ == b.ob_pal@,
        a.obp0 == b.obp0,
        a.obp1 == b.obp1,
        a.dmg_colors == b.dmg_colors,
        a.color_correction == b.color_correction,
    ensures
        a.sprite_line_pixel(y, x, base, bg_idx, bg_prio) == b.sprite_line_pixel(y, x, base, bg_idx, bg_prio),
{
    lemma_oam_scan_frame(a, b, y, 40);
    let vis = b.sprite_order(y);
    lemma_sprite_owner_frame(a, b, y, vis, vis.len(), x);
}

proof fn lemma_oam_scan_frame(a: Ppu, b: Ppu, y: int, n: nat)
    requires
        a.oam@ == b.oam@,
        a.lcdc == b.lcdc,
    ensures
        a.oam_scan(y, n) == b.oam_scan(y, n),
    decreases n,
{
    if n > 0 {
        lemma_oam_scan_frame(a, b, y, (n - 1) as nat);
    }
}

proof fn lemma_sprite_owner_frame(a: Ppu, b: Ppu, y: int, vis: Seq<(usize, i32)>, n: nat, x: int)
    requires
        a.oam@ == b.oam@,
        a.vram@ == b.vram@,
        a.lcdc == b.lcdc,
        a.cgb == b.cgb,
    ensures
        a.sprite_owner(y, vis, n, x) == b.sprite_owner(y, vis, n, x),
    decreases n,
{
    if n > 0 {
        lemma_sprite_owner_frame(a, b, y, vis, (n - 1) as nat, x);
    }
}

/// The line scan holds at most ten sprites, each an OAM index below `n`.
pub proof fn lemma_oam_scan_bounds(p: Ppu, y: int, n: nat)
    ensures
        p.oam_scan(y, n).len() <= 10,
        forall|k: int| 0 <= k < p.oam_scan(y, n).len() ==> (#[trigger] p.oam_scan(y, n)[k]).0 < n,
    decreases n,
{
    if n > 0 {
        lemma_oam_scan_bounds(p, y, (n - 1) as nat);
    }
}

/// Once ten sprites are found, scanning further entries adds none.
pub proof fn lemma_oam_scan_full(p: Ppu, y: int, m: nat, n: nat)
    requires
        m <= n,
        p.oam_scan(y, m).len() >= 10,
    ensures
        p.oam_scan(y, n) == p.oam_scan(y, m),
    decreases n,
{
    if n > m {
        lemma_oam_scan_full(p, y, m, (n - 1) as nat);
    }
}

/// Running `n + 1` dots is running `n` dots and then one more.
pub proof fn lemma_timing_run_step(t: (u8, u32, u8), n: nat)
    ensures
        timing_run(t, n + 1) == timing_step(timing_run(t, n)),
    decreases n,
{
    if n == 0 {
        assert(timing_run(t, 1) == timing_run(timing_step(t), 0));
    } else {
        lemma_timing_run_step(timing_step(t), (n - 1) as nat);
        assert(timing_run(t, n) == timing_run(timing_step(t), (n - 1) as nat));
        assert(timing_run(t, n + 1) == timing_run(timing_step(t), n));
    }
}

/// One dot keeps a consistent LCD timing state consistent.
pub proof fn lemma_timing_step_consistent(t: (u8, u32, u8))
    requires
        timing_consistent(t),
    ensures
        timing_consistent(timing_step(t)),
{
}

/// Any number of dots keeps a consistent LCD timing state consistent.
pub proof fn lemma_timing_run_consistent(t: (u8, u32, u8), n: nat)
    requires
        timing_consistent(t),
    ensures
        timing_consistent(timing_run(t, n)),
    decreases n,
{
    if n > 0 {
        lemma_timing_step_consistent(t);
        lemma_timing_run_consistent(timing_step(t), (n - 1) as nat);
    }
}

} // verus!
