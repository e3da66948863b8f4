//! System bus: memory map, interrupt flags, OAM DMA, CGB HDMA/GDMA,
//! WRAM/VRAM banking and the double-speed switch.

use vstd::prelude::*;
use crate::apu::Apu;
use crate::cartridge::Cartridge;
use crate::joypad::Joypad;
use crate::ppu::{LcdModel, Ppu};
use crate::timer::Timer;

verus! {

pub const INT_VBLANK: u8 = 0x01;

pub const INT_STAT: u8 = 0x02;

pub const INT_TIMER: u8 = 0x04;

pub const INT_SERIAL: u8 = 0x08;

pub const INT_JOYPAD: u8 = 0x10;

pub struct Bus {
    pub cart: Cartridge,
    pub ppu: Ppu,
    pub apu: Apu,
    pub timer: Timer,
    pub joypad: Joypad,
    pub cgb: bool,
    /// 8 banks of 4 KiB.
    pub wram: Vec<u8>,
    pub wram_bank: usize,
    pub hram: Vec<u8>,
    pub ie: u8,
    pub iff: u8,
    // Serial (stubbed link cable; also captures output for test ROMs)
    pub sb: u8,
    pub sc: u8,
    pub serial_counter: i32,
    pub serial_out: Vec<u8>,
    // CGB speed switch
    pub double_speed: bool,
    pub key1_armed: bool,
    // HDMA
    pub hdma_src: u16,
    pub hdma_dst: u16,
    /// Remaining blocks - 1; 0xFF = inactive.
    pub hdma_len: u8,
    pub hdma_active: bool,
    /// Real-time (4.19 MHz) cycles elapsed — drives frame pacing.
    pub frame_cycles: u64,
    /// Unbounded count of real-time cycles; `frame_cycles` is its value
    /// modulo 2^64.
    pub clock: Ghost<int>,
}

impl Bus {
    pub open spec fn wf(self) -> bool {
        &&& self.cart.wf()
        &&& self.ppu.wf()
        &&& self.apu.wf()
        &&& self.wram@.len() == 0x8000
        &&& 1 <= self.wram_bank <= 7
        &&& self.hram@.len() == 0x7F
        &&& self.clock@ >= 0
        &&& self.frame_cycles as int == self.clock@ % 0x1_0000_0000_0000_0000
    }

    /// Offset into work RAM of an address in 0xC000..=0xDFFF.
    pub open spec fn wram_index(self, addr: u16) -> int {
        if addr <= 0xCFFF {
            addr - 0xC000
        } else {
            self.wram_bank * 0x1000 + addr - 0xD000
        }
    }

    /// The value a CPU read of I/O register `addr` (0xFF00..=0xFF7F) returns.
    pub open spec fn io_value(self, addr: u16) -> u8 {
        if addr == 0xFF00 {
            self.joypad.read_spec()
        } else if addr == 0xFF01 {
            self.sb
        } else if addr == 0xFF02 {
            self.sc | (if self.cgb { 0x7Cu8 } else { 0x7E })
        } else if 0xFF04 <= addr <= 0xFF07 {
            self.timer.read_spec(addr)
        } else if addr == 0xFF0F {
            self.iff | 0xE0
        } else if 0xFF10 <= addr <= 0xFF3F {
            self.apu.reg_value(addr)
        } else if (0xFF40 <= addr <= 0xFF4B) || addr == 0xFF4F || (0xFF68 <= addr <= 0xFF6C) {
            self.ppu.reg_value(addr)
        } else if addr == 0xFF4D {
            if self.cgb {
                0x7E | (if self.double_speed { 0x80u8 } else { 0 }) | (if self.key1_armed { 1u8 } else { 0 })
            } else {
                0xFF
            }
        } else if addr == 0xFF55 {
            if self.hdma_active { self.hdma_len } else { 0x80 | self.hdma_len }
        } else if addr == 0xFF70 {
            if self.cgb { 0xF8 | (self.wram_bank as u8) } else { 0xFF }
        } else {
            0xFF
        }
    }

    /// The value a CPU read of `addr` returns.
    pub open spec fn read_spec(self, addr: u16) -> u8 {
        if addr <= 0x7FFF {
            self.cart.rom_byte(addr)
        } else if addr <= 0x9FFF {
            self.ppu.vram@[self.ppu.vram_index(addr)]
        } else if addr <= 0xBFFF {
            self.cart.ram_byte(addr & 0x1FFF)
        } else if addr <= 0xDFFF {
            self.wram@[self.wram_index(addr)]
        } else if addr <= 0xFDFF {
            // Echo of 0xC000..=0xDDFF.
            self.wram@[self.wram_index((addr - 0x2000) as u16)]
        } else if addr <= 0xFE9F {
            self.ppu.oam@[addr - 0xFE00]
        } else if addr <= 0xFEFF {
            0xFF
        } else if addr <= 0xFF7F {
            self.io_value(addr)
        } else if addr <= 0xFFFE {
            self.hram@[addr - 0xFF80]
        } else {
            self.ie
        }
    }

    /// The byte a DMA transfer reads at `src` while VRAM holds `vram`.
    pub open spec fn dma_byte(self, vram: Seq<u8>, src: u16) -> u8 {
        if 0x8000 <= src <= 0x9FFF {
            vram[self.ppu.vram_index(src)]
        } else {
            self.read_spec(src)
        }
    }

    /// VRAM, source and destination after `n` bytes of an HDMA/GDMA
    /// transfer that starts with VRAM `vram`, source `src` and destination
    /// `dst` (an offset into the current VRAM bank).
    pub open spec fn dma_run(self, vram: Seq<u8>, src: u16, dst: u16, n: nat) -> (Seq<u8>, u16, u16)
        decreases n,
    {
        if n == 0 {
            (vram, src, dst)
        } else {
            let v = self.dma_byte(vram, src);
            let next = vram.update(self.ppu.vram_index(0x8000 | (dst & 0x1FFF)), v);
            self.dma_run(next, wrap_inc(src), wrap_inc(dst) & 0x1FFF, (n - 1) as nat)
        }
    }

    /// The serial port is shifting on the internal clock.
    pub open spec fn serial_on(self) -> bool {
        self.sc & 0x80 != 0 && self.sc & 0x01 != 0
    }

    /// The serial counter after `cycles` CPU cycles while shifting.
    pub open spec fn serial_count(self, cycles: u32) -> i32 {
        vstd::wrapping::i32_specs::wrapping_sub(self.serial_counter, cycles as i32)
    }

    /// A transfer completes within `cycles` CPU cycles.
    pub open spec fn serial_fires(self, cycles: u32) -> bool {
        self.serial_on() && self.serial_count(cycles) <= 0
    }

    /// The bus after the timer and the serial port ran `cycles` CPU cycles,
    /// as reads see it (the serial output log aside): the timer advanced,
    /// its interrupt moved to IF, and a completed transfer shifted in 0xFF,
    /// stopped and requested the serial interrupt.
    pub open spec fn timer_serial_view(self, cycles: u32) -> Bus {
        let t = self.timer.run(cycles as nat);
        let f1 = if t.interrupt { self.iff | INT_TIMER } else { self.iff };
        let fires = self.serial_fires(cycles);
        Bus {
            timer: Timer { interrupt: false, ..t },
            iff: if fires { f1 | INT_SERIAL } else { f1 },
            sb: if fires { 0xFF } else { self.sb },
            sc: if fires { self.sc & 0x7F } else { self.sc },
            serial_counter: if self.serial_on() { self.serial_count(cycles) } else { self.serial_counter },
            ..self
        }
    }

    /// The bus as an HBlank DMA block reads it once the PPU has run to `m`
    /// and its interrupt requests have moved to IF (the frame and line
    /// buffers aside, which no read reaches).
    pub open spec fn video_view(self, m: LcdModel) -> Bus {
        Bus {
            ppu: Ppu {
                stat_line: m.stat_line,
                frame_ready: m.frame_ready,
                int_vblank: false,
                int_stat: false,
                entered_hblank: false,
                ..self.ppu.with_model(m)
            },
            iff: video_iff(self.iff, m),
            ..self
        }
    }

    pub fn new(cart: Cartridge) -> (b: Bus)
        requires
            cart.wf(),
        ensures
            b.wf(),
            b.cart == cart,
            b.cgb == cart.cgb,
            b.ppu.cgb == cart.cgb,
            b.timer == Timer::new_spec(),
            b.wram@ == Seq::new(0x8000, |i: int| 0u8),
            b.hram@ == Seq::new(0x7F, |i: int| 0u8),
            b.wram_bank == 1,
            b.ie == 0 && b.iff == 0xE1 && b.sb == 0 && b.sc == 0x7E,
            b.serial_counter == 0 && b.serial_out@.len() == 0,
            !b.double_speed && !b.key1_armed,
            b.hdma_src == 0 && b.hdma_dst == 0 && b.hdma_len == 0xFF && !b.hdma_active,
            b.frame_cycles == 0,
            b.clock@ == 0,
            b.ppu.powered(cart.cgb),
            b.ppu.dmg_colors == [0xFFE0F8D0u32, 0xFF88C070u32, 0xFF346856u32, 0xFF081820u32],
            b.ppu.color_correction,
            b.apu.fresh(),
            b.joypad == (Joypad { select: 0x30, buttons: 0, interrupt: false }),
    {
        let cgb = cart.cgb;
        let b = Bus {
            cart,
            ppu: Ppu::new(cgb),
            apu: Apu::new(),
            timer: Timer::new(),
            joypad: Joypad::new(),
            cgb,
            wram: vec![0u8; 0x8000],
            wram_bank: 1,
            hram: vec![0u8; 0x7F],
            ie: 0,
            iff: 0xE1,
            sb: 0,
            sc: 0x7E,
            serial_counter: 0,
            serial_out: Vec::new(),
            double_speed: false,
            key1_armed: false,
            hdma_src: 0,
            hdma_dst: 0,
            hdma_len: 0xFF,
            hdma_active: false,
            frame_cycles: 0,
            clock: Ghost(0),
        };
        proof {
            assert(b.wram@ =~= Seq::new(0x8000, |i: int| 0u8));
            assert(b.hram@ =~= Seq::new(0x7F, |i: int| 0u8));
        }
        b
    }

    /// Work RAM, its bank, HRAM, OAM and IE are the same in `self` and
    /// `other`.
    pub open spec fn ram_kept(self, other: Bus) -> bool {
        &&& self.wram@ == other.wram@
        &&& self.wram_bank == other.wram_bank
        &&& self.hram@ == other.hram@
        &&& self.ppu.oam@ == other.ppu.oam@
        &&& self.ie == other.ie
    }

    /// Real-time cycles for `cycles` CPU cycles (halved in double speed).
    pub open spec fn real_cycles(self, cycles: u32) -> u32 {
        if self.double_speed { cycles / 2 } else { cycles }
    }

    /// `after` is this bus after `cycles` CPU cycles: the timer and the
    /// serial port at CPU speed, the PPU (with an HBlank DMA block on
    /// entering HBlank) and the APU at real speed, the devices' interrupt
    /// requests moved to IF, and the real-time counters advanced.
    pub open spec fn tick_result(self, after: Bus, cycles: u32) -> bool {
        let t = self.timer_serial_view(cycles);
        let c = self.real_cycles(cycles);
        let m = self.ppu.run_model(c as nat);
        let hd = m.entered_hblank && self.hdma_active;
        &&& after.timer == t.timer
        &&& after.sb == t.sb
        &&& after.sc == t.sc
        &&& after.serial_counter == t.serial_counter
        &&& after.serial_out@ == (if self.serial_fires(cycles) {
            self.serial_out@.push(self.sb)
        } else {
            self.serial_out@
        })
        &&& after.ppu.lcd_model() == (LcdModel { int_vblank: false, int_stat: false, entered_hblank: false, ..m })
        &&& after.ppu == (Ppu { vram: after.ppu.vram, ..self.ppu.clocked(after.ppu) })
        &&& hd ==> (after.ppu.vram@, after.hdma_src, after.hdma_dst)
            == t.video_view(m).dma_run(self.ppu.vram@, self.hdma_src, self.hdma_dst, 16)
        &&& !hd ==> after.ppu.vram@ == self.ppu.vram@ && after.hdma_src == self.hdma_src
            && after.hdma_dst == self.hdma_dst
        &&& after.hdma_len == (if !hd { self.hdma_len } else if self.hdma_len == 0 { 0xFF } else { (self.hdma_len - 1) as u8 })
        &&& after.hdma_active == (self.hdma_active && !(hd && self.hdma_len == 0))
        &&& after.iff == (if self.joypad.interrupt { video_iff(t.iff, m) | INT_JOYPAD } else { video_iff(t.iff, m) })
        &&& self.apu.tick_result(after.apu, c as int)
        &&& after == (Bus {
            timer: after.timer,
            iff: after.iff,
            sb: after.sb,
            sc: after.sc,
            serial_counter: after.serial_counter,
            serial_out: after.serial_out,
            ppu: after.ppu,
            apu: after.apu,
            hdma_src: after.hdma_src,
            hdma_dst: after.hdma_dst,
            hdma_len: after.hdma_len,
            hdma_active: after.hdma_active,
            joypad: Joypad { interrupt: false, ..self.joypad },
            frame_cycles: after.frame_cycles,
            clock: after.clock,
            ..self
        })
        &&& after.frame_cycles == (self.frame_cycles as int + self.real_cycles(cycles) as int) % 0x1_0000_0000_0000_0000
        &&& after.clock@ == self.clock@ + self.real_cycles(cycles)
    }

    /// Advance all subsystems by `cycles` CPU T-cycles. Timer and serial run
    /// at CPU speed; PPU/APU at real (4.19 MHz) speed. The serial and APU
    /// timers count in `i32`, so a count must fit in one.
    pub fn tick(&mut self, cycles: u32)
        requires
            old(self).wf(),
            cycles <= 0x7FFF_FFFF,
        ensures
            final(self).wf(),
            old(self).tick_result(*final(self), cycles),
            old(self).timer.run(cycles as nat).interrupt ==> final(self).iff & INT_TIMER == INT_TIMER,
            final(self).iff & old(self).iff == old(self).iff,
            final(self).ppu.timing() == (if old(self).ppu.lcd_on_spec() {
                crate::ppu::timing_run(old(self).ppu.timing(), old(self).real_cycles(cycles) as nat)
            } else {
                old(self).ppu.timing()
            }),
            old(self).joypad.interrupt ==> final(self).iff & INT_JOYPAD == INT_JOYPAD,
    {
        self.tick_timer_serial(cycles);
        let ghost mid = *self;
        let real_cycles: u32 = if self.double_speed { cycles / 2 } else { cycles };
        self.frame_cycles = self.frame_cycles.wrapping_add(real_cycles as u64);
        self.clock = Ghost(self.clock@ + real_cycles);
        let ghost pre = *self;
        self.tick_video_audio(real_cycles);
        proof {
            lemma_and_trans(self.iff, mid.iff, old(self).iff);
            if mid.iff & INT_TIMER == INT_TIMER {
                lemma_and_trans(self.iff, mid.iff, INT_TIMER);
            }
            let t = old(self).timer_serial_view(cycles);
            let m = old(self).ppu.run_model(real_cycles as nat);
            assert forall|x: u16| !(0x8000 <= x <= 0x9FFF) implies
                #[trigger] pre.video_view(m).read_spec(x) == t.video_view(m).read_spec(x) by {}
            lemma_dma_run_frame(pre.video_view(m), t.video_view(m), old(self).ppu.vram@, old(self).hdma_src,
                old(self).hdma_dst, 16);
        }
    }

    /// Timer and serial port, clocked at CPU speed.
    fn tick_timer_serial(&mut self, cycles: u32)
        requires
            old(self).wf(),
        ensures
            final(self).wf(),
            *final(self) == (Bus {
                timer: final(self).timer,
                iff: final(self).iff,
                sb: final(self).sb,
                sc: final(self).sc,
                serial_counter: final(self).serial_counter,
                serial_out: final(self).serial_out,
                ..*old(self)
            }),
            final(self).timer == (Timer { interrupt: false, ..old(self).timer.run(cycles as nat) }),
            *final(self) == (Bus { serial_out: final(self).serial_out, ..old(self).timer_serial_view(cycles) }),
            final(self).serial_out@ == (if old(self).serial_fires(cycles) {
                old(self).serial_out@.push(old(self).sb)
            } else {
                old(self).serial_out@
            }),
            old(self).timer.run(cycles as nat).interrupt ==> final(self).iff & INT_TIMER == INT_TIMER,
            final(self).iff & old(self).iff == old(self).iff,
    {
        proof { lemma_and_self(self.iff); }
        self.timer.tick(cycles);
        if self.timer.interrupt {
            self.timer.interrupt = false;
            let f = self.iff;
            self.iff = f | INT_TIMER;
            proof { lemma_or_keeps(f, INT_TIMER, f); }
        }
        if self.sc & 0x80 != 0 && self.sc & 0x01 != 0 {
            self.serial_counter = self.serial_counter.wrapping_sub(cycles as i32);
            if self.serial_counter <= 0 {
                // No link partner: shift in 0xFF.
                self.serial_out.push(self.sb);
                self.sb = 0xFF;
                self.sc = self.sc & 0x7F;
                let f = self.iff;
                self.iff = f | INT_SERIAL;
                proof {
                    lemma_or_keeps(f, INT_SERIAL, old(self).iff);
                    if f & INT_TIMER == INT_TIMER {
                        lemma_or_keeps(f, INT_SERIAL, INT_TIMER);
                    }
                }
            }
        }
    }

    /// PPU (with HBlank DMA) and APU, clocked at real speed, then the
    /// joypad interrupt.
    fn tick_video_audio(&mut self, real_cycles: u32)
        requires
            old(self).wf(),
            real_cycles <= 0x7FFF_FFFF,
        ensures
            final(self).wf(),
            ({
                let m = old(self).ppu.run_model(real_cycles as nat);
                let hd = m.entered_hblank && old(self).hdma_active;
                &&& final(self).ppu.lcd_model() == (LcdModel { int_vblank: false, int_stat: false, entered_hblank: false, ..m })
                &&& final(self).ppu == (Ppu { vram: final(self).ppu.vram, ..old(self).ppu.clocked(final(self).ppu) })
                &&& hd ==> (final(self).ppu.vram@, final(self).hdma_src, final(self).hdma_dst)
                    == old(self).video_view(m).dma_run(old(self).ppu.vram@, old(self).hdma_src, old(self).hdma_dst, 16)
                &&& !hd ==> final(self).ppu.vram@ == old(self).ppu.vram@ && final(self).hdma_src == old(self).hdma_src
                    && final(self).hdma_dst == old(self).hdma_dst
                &&& final(self).hdma_len == (if !hd { old(self).hdma_len } else if old(self).hdma_len == 0 { 0xFF } else { (old(self).hdma_len - 1) as u8 })
                &&& final(self).hdma_active == (old(self).hdma_active && !(hd && old(self).hdma_len == 0))
                &&& final(self).iff == (if old(self).joypad.interrupt { video_iff(old(self).iff, m) | INT_JOYPAD } else { video_iff(old(self).iff, m) })
            }),
            old(self).apu.tick_result(final(self).apu, real_cycles as int),
            *final(self) == (Bus {
                ppu: final(self).ppu,
                apu: final(self).apu,
                iff: final(self).iff,
                hdma_src: final(self).hdma_src,
                hdma_dst: final(self).hdma_dst,
                hdma_len: final(self).hdma_len,
                hdma_active: final(self).hdma_active,
                joypad: Joypad { interrupt: false, ..old(self).joypad },
                ..*old(self)
            }),
            final(self).iff & old(self).iff == old(self).iff,
            final(self).ppu.timing() == (if old(self).ppu.lcd_on_spec() {
                crate::ppu::timing_run(old(self).ppu.timing(), real_cycles as nat)
            } else {
                old(self).ppu.timing()
            }),
            old(self).joypad.interrupt ==> final(self).iff & INT_JOYPAD == INT_JOYPAD,
    {
        self.tick_video(real_cycles);
        self.apu.tick(real_cycles);

        if self.joypad.interrupt {
            self.joypad.interrupt = false;
            let f = self.iff;
            self.iff = f | INT_JOYPAD;
            proof { lemma_or_keeps(f, INT_JOYPAD, old(self).iff); }
        }
    }

    /// The PPU clocked at real speed, its interrupt requests moved to IF,
    /// and an HBlank DMA block on entering HBlank.
    #[verifier::rlimit(40)]
    #[verifier::spinoff_prover]
    fn tick_video(&mut self, real_cycles: u32)
        requires
            old(self).wf(),
        ensures
            final(self).wf(),
            ({
                let m = old(self).ppu.run_model(real_cycles as nat);
                let hd = m.entered_hblank && old(self).hdma_active;
                &&& final(self).ppu.lcd_model() == (LcdModel { int_vblank: false, int_stat: false, entered_hblank: false, ..m })
                &&& final(self).ppu == (Ppu { vram: final(self).ppu.vram, ..old(self).ppu.clocked(final(self).ppu) })
                &&& hd ==> (final(self).ppu.vram@, final(self).hdma_src, final(self).hdma_dst)
                    == old(self).video_view(m).dma_run(old(self).ppu.vram@, old(self).hdma_src, old(self).hdma_dst, 16)
                &&& !hd ==> final(self).ppu.vram@ == old(self).ppu.vram@ && final(self).hdma_src == old(self).hdma_src
                    && final(self).hdma_dst == old(self).hdma_dst
                &&& final(self).hdma_len == (if !hd { old(self).hdma_len } else if old(self).hdma_len == 0 { 0xFF } else { (old(self).hdma_len - 1) as u8 })
                &&& final(self).hdma_active == (old(self).hdma_active && !(hd && old(self).hdma_len == 0))
                &&& final(self).iff == video_iff(old(self).iff, m)
            }),
            *final(self) == (Bus {
                ppu: final(self).ppu,
                iff: final(self).iff,
                hdma_src: final(self).hdma_src,
                hdma_dst: final(self).hdma_dst,
                hdma_len: final(self).hdma_len,
                hdma_active: final(self).hdma_active,
                ..*old(self)
            }),
            final(self).iff & old(self).iff == old(self).iff,
            final(self).ppu.timing() == (if old(self).ppu.lcd_on_spec() {
                crate::ppu::timing_run(old(self).ppu.timing(), real_cycles as nat)
            } else {
                old(self).ppu.timing()
            }),
    {
        let ghost start = *self;
        let ghost m = self.ppu.run_model(real_cycles as nat);
        proof { lemma_and_self(self.iff); }
        self.ppu.tick(real_cycles);
        if self.ppu.int_vblank {
            self.ppu.int_vblank = false;
            let f = self.iff;
            self.iff = f | INT_VBLANK;
            proof { lemma_or_keeps(f, INT_VBLANK, old(self).iff); }
        }
        if self.ppu.int_stat {
            self.ppu.int_stat = false;
            let f = self.iff;
            self.iff = f | INT_STAT;
            proof { lemma_or_keeps(f, INT_STAT, old(self).iff); }
        }
        assert(self.iff == video_iff(start.iff, m));
        if self.ppu.entered_hblank {
            self.ppu.entered_hblank = false;
            if self.hdma_active {
                let ghost cur = *self;
                self.hdma_block();
                proof {
                    let v = start.video_view(m);
                    assert forall|x: u16| !(0x8000 <= x <= 0x9FFF) implies
                        #[trigger] cur.read_spec(x) == v.read_spec(x) by {}
                    lemma_dma_run_frame(cur, v, cur.ppu.vram@, cur.hdma_src, cur.hdma_dst, 16);
                }
            }
        }
    }

    pub fn speed_switch_armed(&self) -> (b: bool)
        ensures
            b == (self.cgb && self.key1_armed),
    {
        self.cgb && self.key1_armed
    }

    pub fn perform_speed_switch(&mut self)
        requires
            old(self).wf(),
        ensures
            final(self).wf(),
            *final(self) == (Bus {
                double_speed: !old(self).double_speed,
                key1_armed: false,
                timer: Timer { div: 0, ..old(self).timer },
                ..*old(self)
            }),
    {
        self.double_speed = !self.double_speed;
        self.key1_armed = false;
        self.timer.reset_div();
    }

    pub fn read(&self, addr: u16) -> (v: u8)
        requires
            self.wf(),
        ensures
            v == self.read_spec(addr),
        decreases addr,
    {
        if addr <= 0x7FFF {
            self.cart.read_rom(addr)
        } else if addr <= 0x9FFF {
            self.ppu.read_vram(addr)
        } else if addr <= 0xBFFF {
            proof {
                crate::bits::lemma_and_le_u16(addr, 0x1FFF);
                crate::cartridge::lemma_ram_offset_ok(self.cart, addr & 0x1FFF);
            }
            self.cart.read_ram(addr & 0x1FFF)
        } else if addr <= 0xCFFF {
            self.wram[addr as usize - 0xC000]
        } else if addr <= 0xDFFF {
            self.wram[self.wram_bank * 0x1000 + addr as usize - 0xD000]
        } else if addr <= 0xFDFF {
            self.read(addr - 0x2000)
        } else if addr <= 0xFE9F {
            self.ppu.oam[addr as usize - 0xFE00]
        } else if addr <= 0xFEFF {
            0xFF
        } else if addr <= 0xFF7F {
            self.read_io(addr)
        } else if addr <= 0xFFFE {
            self.hram[addr as usize - 0xFF80]
        } else {
            self.ie
        }
    }

    fn read_io(&self, addr: u16) -> (v: u8)
        requires
            self.wf(),
        ensures
            v == self.io_value(addr),
    {
        match addr {
            0xFF00 => self.joypad.read(),
            0xFF01 => self.sb,
            0xFF02 => self.sc | if self.cgb { 0x7C } else { 0x7E },
            0xFF04..=0xFF07 => self.timer.read(addr),
            0xFF0F => self.iff | 0xE0,
            0xFF10..=0xFF3F => self.apu.read(addr),
            0xFF40..=0xFF4B | 0xFF4F | 0xFF68..=0xFF6C => self.ppu.read_reg(addr),
            0xFF4D => {
                if self.cgb {
                    0x7E | (if self.double_speed { 0x80u8 } else { 0 }) | (if self.key1_armed { 1u8 } else { 0 })
                } else {
                    0xFF
                }
            },
            0xFF55 => {
                if self.hdma_active {
                    self.hdma_len
                } else {
                    0x80 | self.hdma_len
                }
            },
            0xFF70 => {
                if self.cgb {
                    0xF8 | self.wram_bank as u8
                } else {
                    0xFF
                }
            },
            _ => 0xFF,
        }
    }

    /// `after` is `self` with `val` stored at `addr`, for the plain memory
    /// regions: VRAM, work RAM and its echo, OAM, HRAM and IE.
    #[verifier::opaque]
    pub open spec fn stored(self, after: Bus, addr: u16, val: u8) -> bool {
        if 0x8000 <= addr <= 0x9FFF {
            &&& after == (Bus { ppu: after.ppu, ..self })
            &&& after.ppu == (Ppu { vram: after.ppu.vram, ..self.ppu })
            &&& after.ppu.vram@ == self.ppu.vram@.update(self.ppu.vram_index(addr), val)
        } else if 0xC000 <= addr <= 0xDFFF {
            &&& after == (Bus { wram: after.wram, ..self })
            &&& after.wram@ == self.wram@.update(self.wram_index(addr), val)
        } else if 0xE000 <= addr <= 0xFDFF {
            &&& after == (Bus { wram: after.wram, ..self })
            &&& after.wram@ == self.wram@.update(self.wram_index((addr - 0x2000) as u16), val)
        } else if 0xFE00 <= addr <= 0xFE9F {
            &&& after == (Bus { ppu: after.ppu, ..self })
            &&& after.ppu == (Ppu { oam: after.ppu.oam, ..self.ppu })
            &&& after.ppu.oam@ == self.ppu.oam@.update(addr - 0xFE00, val)
        } else if 0xFF80 <= addr <= 0xFFFE {
            &&& after == (Bus { hram: after.hram, ..self })
            &&& after.hram@ == self.hram@.update(addr - 0xFF80, val)
        } else if addr == 0xFFFF {
            after == (Bus { ie: val, ..self })
        } else {
            false
        }
    }

    /// `after` is this bus's cartridge after a store of `val` at `addr`: the
    /// ROM area programs the MBC, 0xA000..=0xBFFF goes to cartridge RAM or
    /// the RTC, and stores elsewhere leave the cartridge alone.
    pub open spec fn cart_stored(self, after: Cartridge, addr: u16, val: u8) -> bool {
        if addr <= 0x7FFF {
            after == self.cart.rom_written(addr, val, after.rtc.base)
        } else if 0xA000 <= addr <= 0xBFFF {
            self.cart.ram_write_result(after, addr & 0x1FFF, val)
        } else {
            after == self.cart
        }
    }

    pub open spec fn is_plain_memory(addr: u16) -> bool {
        (0x8000 <= addr <= 0x9FFF) || (0xC000 <= addr <= 0xFE9F) || (0xFF80 <= addr)
    }

    #[verifier::rlimit(80)]
    #[verifier::spinoff_prover]
    pub fn write(&mut self, addr: u16, val: u8)
        requires
            old(self).wf(),
        ensures
            final(self).wf(),
            Bus::is_plain_memory(addr) ==> old(self).stored(*final(self), addr, val),
            addr <= 0x7FFF ==> *final(self) == (Bus { cart: final(self).cart, ..*old(self) })
                && final(self).cart == old(self).cart.rom_written(addr, val, final(self).cart.rtc.base),
            0xA000 <= addr <= 0xBFFF ==> *final(self) == (Bus { cart: final(self).cart, ..*old(self) })
                && old(self).cart.ram_write_result(final(self).cart, addr & 0x1FFF, val),
            0xFEA0 <= addr <= 0xFEFF ==> *final(self) == *old(self),
            0xFF00 <= addr <= 0xFF7F ==> old(self).io_written(*final(self), addr, val),
            final(self).frame_cycles == old(self).frame_cycles,
            final(self).clock == old(self).clock,
            final(self).double_speed == old(self).double_speed,
            old(self).cart_stored(final(self).cart, addr, val),
            final(self).cart.rom@ == old(self).cart.rom@,
            final(self).cart.ram@.len() == old(self).cart.ram@.len(),
    {
        if addr <= 0x7FFF {
            self.cart.write_rom(addr, val);
        } else if addr <= 0xBFFF && addr >= 0xA000 {
            proof {
                crate::bits::lemma_and_le_u16(addr, 0x1FFF);
                crate::cartridge::lemma_ram_offset_ok(self.cart, addr & 0x1FFF);
            }
            self.cart.write_ram(addr & 0x1FFF, val);
        } else if 0xFEA0 <= addr && addr <= 0xFEFF {
        } else if 0xFF00 <= addr && addr <= 0xFF7F {
            self.write_io(addr, val);
        } else {
            self.write_memory(addr, val);
        }
    }

    /// Writes to VRAM, work RAM (and echo), OAM, HRAM and IE.
    fn write_memory(&mut self, addr: u16, val: u8)
        requires
            old(self).wf(),
            Bus::is_plain_memory(addr),
        ensures
            final(self).wf(),
            old(self).stored(*final(self), addr, val),
            final(self).frame_cycles == old(self).frame_cycles,
            final(self).clock == old(self).clock,
            final(self).double_speed == old(self).double_speed,
            final(self).cart == old(self).cart,
    {
        reveal(Bus::stored);
        if addr <= 0x9FFF {
            self.ppu.write_vram(addr, val);
        } else if addr <= 0xDFFF {
            self.write_wram(addr, val);
        } else if addr <= 0xFDFF {
            // Echo of 0xC000..=0xDDFF.
            self.write_wram(addr - 0x2000, val);
        } else if addr <= 0xFE9F {
            self.ppu.oam.set(addr as usize - 0xFE00, val);
        } else if addr <= 0xFFFE {
            self.hram.set(addr as usize - 0xFF80, val);
        } else {
            self.ie = val;
        }
    }

    fn write_wram(&mut self, addr: u16, val: u8)
        requires
            old(self).wf(),
            0xC000 <= addr <= 0xDFFF,
        ensures
            final(self).wf(),
            *final(self) == (Bus { wram: final(self).wram, ..*old(self) }),
            final(self).wram@ == old(self).wram@.update(old(self).wram_index(addr), val),
    {
        if addr <= 0xCFFF {
            self.wram.set(addr as usize - 0xC000, val);
        } else {
            self.wram.set(self.wram_bank * 0x1000 + addr as usize - 0xD000, val);
        }
    }

    /// I/O addresses served by the PPU's register file.
    pub open spec fn is_ppu_reg(addr: u16) -> bool {
        (0xFF40 <= addr <= 0xFF45) || (0xFF47 <= addr <= 0xFF4B) || addr == 0xFF4F || (0xFF68 <= addr <= 0xFF6C)
    }

    /// What an I/O register write leaves unchanged, and the effect of the
    /// plain registers.
    #[verifier::opaque]
    pub open spec fn io_written(self, after: Bus, addr: u16, val: u8) -> bool {
        &&& after.cart == self.cart
        &&& after.wram@ == self.wram@
        &&& after.hram@ == self.hram@
        &&& after.ie == self.ie
        &&& after.cgb == self.cgb
        &&& after.frame_cycles == self.frame_cycles
        &&& (addr == 0xFF00 ==> after == (Bus { joypad: Joypad { select: val & 0x30, ..self.joypad }, ..self }))
        &&& (addr == 0xFF01 ==> after == (Bus { sb: val, ..self }))
        &&& (0xFF04 <= addr <= 0xFF07 ==> after == (Bus { timer: self.timer.written(addr, val), ..self }))
        &&& (addr == 0xFF0F ==> after == (Bus { iff: val & 0x1F, ..self }))
        &&& (addr == 0xFF02 ==> after == (Bus {
            sc: val & 0x83,
            serial_counter: if val & 0x80 != 0 && val & 0x01 != 0 { 4096i32 } else { self.serial_counter },
            ..self
        }))
        &&& (0xFF10 <= addr <= 0xFF3F ==> after == (Bus { apu: after.apu, ..self }))
        &&& (0xFF10 <= addr <= 0xFF2F ==> after.apu == self.apu.written(addr, val))
        &&& (0xFF30 <= addr <= 0xFF3F ==> after.apu == (Apu { wave_ram: after.apu.wave_ram, ..self.apu })
            && after.apu.wave_ram@ == self.apu.wave_ram@.update(addr - 0xFF30, val))
        &&& (Bus::is_ppu_reg(addr) ==> after == (Bus { ppu: after.ppu, ..self }) && self.ppu.reg_write_result(after.ppu, addr, val))
        &&& (addr == 0xFF46 ==> after == (Bus { ppu: after.ppu, ..self }) && after.ppu == (Ppu { oam: after.ppu.oam, ..self.ppu })
            && forall|i: int| 0 <= i < 0xA0 ==> #[trigger] after.ppu.oam@[i] == self.read_spec(((val as int) * 0x100 + i) as u16))
        &&& (addr == 0xFF55 && !self.cgb ==> after == self)
        &&& (addr == 0xFF55 && self.cgb && self.hdma_active ==> after == (if val & 0x80 == 0 { Bus { hdma_active: false, ..self } } else { self }))
        &&& (addr == 0xFF55 && self.cgb && !self.hdma_active && val & 0x80 != 0 ==> after == (Bus { hdma_len: val & 0x7F, hdma_active: true, ..self }))
        &&& (addr == 0xFF55 && self.cgb && !self.hdma_active && val & 0x80 == 0 ==> after == (Bus {
            ppu: after.ppu,
            hdma_src: after.hdma_src,
            hdma_dst: after.hdma_dst,
            hdma_len: 0xFF,
            ..self
        }) && after.ppu == (Ppu { vram: after.ppu.vram, ..self.ppu })
            && (after.ppu.vram@, after.hdma_src, after.hdma_dst) == (Bus { hdma_len: val & 0x7F, ..self }).dma_run(
                self.ppu.vram@, self.hdma_src, self.hdma_dst, (16 * ((val & 0x7F) + 1)) as nat))
        &&& (addr == 0xFF4D ==> after == (if self.cgb { Bus { key1_armed: val & 1 != 0, ..self } } else { self }))
        &&& (addr == 0xFF51 ==> after == (Bus { hdma_src: (self.hdma_src & 0x00FF) | ((val as u16) << 8u16), ..self }))
        &&& (addr == 0xFF52 ==> after == (Bus { hdma_src: (self.hdma_src & 0xFF00) | ((val & 0xF0) as u16), ..self }))
        &&& (addr == 0xFF53 ==> after == (Bus { hdma_dst: (self.hdma_dst & 0x00FF) | (((val as u16) & 0x1F) << 8u16), ..self }))
        &&& (addr == 0xFF54 ==> after == (Bus { hdma_dst: (self.hdma_dst & 0xFF00) | ((val & 0xF0) as u16), ..self }))
        &&& (addr == 0xFF70 ==> after == (if self.cgb {
            Bus { wram_bank: if val & 7 == 0 { 1 } else { (val & 7) as usize }, ..self }
        } else {
            self
        }))
    }

    #[verifier::rlimit(80)]
    #[verifier::spinoff_prover]
    fn write_io(&mut self, addr: u16, val: u8)
        requires
            old(self).wf(),
            0xFF00 <= addr <= 0xFF7F,
        ensures
            final(self).wf(),
            old(self).io_written(*final(self), addr, val),
            final(self).frame_cycles == old(self).frame_cycles,
            final(self).clock == old(self).clock,
            final(self).double_speed == old(self).double_speed,
            final(self).cart == old(self).cart,
    {
        reveal(Bus::io_written);
        match addr {
            0xFF00 => self.joypad.write(val),
            0xFF01 => self.sb = val,
            0xFF02 => {
                self.sc = val & 0x83;
                if val & 0x80 != 0 && val & 0x01 != 0 {
                    self.serial_counter = 8 * 512;  // 8 bits at 8192 Hz
                }
            },
            0xFF04..=0xFF07 => self.timer.write(addr, val),
            0xFF0F => self.iff = val & 0x1F,
            0xFF10..=0xFF3F => self.apu.write(addr, val),
            0xFF46 => self.oam_dma(val),
            0xFF40..=0xFF45 | 0xFF47..=0xFF4B | 0xFF4F | 0xFF68..=0xFF6C => {
                self.ppu.write_reg(addr, val)
            },
            0xFF4D => {
                if self.cgb {
                    self.key1_armed = val & 1 != 0;
                }
            },
            0xFF51 => self.hdma_src = (self.hdma_src & 0x00FF) | ((val as u16) << 8u16),
            0xFF52 => self.hdma_src = (self.hdma_src & 0xFF00) | (val & 0xF0) as u16,
            0xFF53 => self.hdma_dst = (self.hdma_dst & 0x00FF) | ((val as u16 & 0x1F) << 8u16),
            0xFF54 => self.hdma_dst = (self.hdma_dst & 0xFF00) | (val & 0xF0) as u16,
            0xFF55 => {
                if !self.cgb {
                    return;
                }
                if self.hdma_active {
                    // Writing with bit 7 clear cancels an active HBlank DMA.
                    if val & 0x80 == 0 {
                        self.hdma_active = false;
                    }
                    return;
                }
                self.hdma_len = val & 0x7F;
                if val & 0x80 != 0 {
                    self.hdma_active = true;  // HBlank DMA: one block per HBlank
                } else {
                    // General-purpose DMA: transfer everything now.
                    let blocks: u16 = (val & 0x7F) as u16 + 1;
                    let mut k: u16 = 0;
                    let ghost start = *self;
                    while k < blocks
                        invariant
                            self.wf(),
                            k <= blocks,
                            *self == (Bus { ppu: self.ppu, hdma_src: self.hdma_src, hdma_dst: self.hdma_dst, ..start }),
                            self.ppu == (Ppu { vram: self.ppu.vram, ..start.ppu }),
                            start == (Bus { hdma_len: val & 0x7F, ..*old(self) }),
                            start.dma_run(self.ppu.vram@, self.hdma_src, self.hdma_dst, (16 * (blocks - k)) as nat)
                                == start.dma_run(start.ppu.vram@, start.hdma_src, start.hdma_dst, (16 * blocks) as nat),
                        decreases blocks - k,
                    {
                        let ghost cur = *self;
                        self.hdma_copy_block();
                        proof {
                            assert forall|x: u16| !(0x8000 <= x <= 0x9FFF) implies
                                #[trigger] cur.read_spec(x) == start.read_spec(x) by {}
                            lemma_dma_run_frame(cur, start, cur.ppu.vram@, cur.hdma_src, cur.hdma_dst, 16);
                            lemma_dma_run_split(start, cur.ppu.vram@, cur.hdma_src, cur.hdma_dst, 16,
                                (16 * (blocks - k - 1)) as nat);
                        }
                        k = k + 1;
                    }
                    self.hdma_len = 0xFF;
                }
            },
            0xFF70 => {
                if self.cgb {
                    let b = val & 7;
                    proof { crate::bits::lemma_and_le_u8(val, 7); }
                    self.wram_bank = if b == 0 { 1 } else { b as usize };
                }
            },
            _ => {},
        }
    }

    /// Instant OAM DMA: OAM receives the 160 bytes at `page` × 0x100.
    fn oam_dma(&mut self, page: u8)
        requires
            old(self).wf(),
        ensures
            final(self).wf(),
            *final(self) == (Bus { ppu: final(self).ppu, ..*old(self) }),
            final(self).ppu == (Ppu { oam: final(self).ppu.oam, ..old(self).ppu }),
            forall|i: int| 0 <= i < 0xA0 ==> #[trigger] final(self).ppu.oam@[i] == old(self).read_spec(((page as int) * 0x100 + i) as u16),
    {
        // Games busy-wait the proper 160 µs in HRAM anyway.
        let base: u16 = (page as u16) << 8u16;
        assert(base == page as int * 0x100) by (bit_vector) requires base == (page as u16) << 8u16;
        let ghost start = *self;
        let mut i: u16 = 0;
        while i < 0xA0
            invariant
                i <= 0xA0,
                base == page as int * 0x100,
                self.wf(),
                *self == (Bus { ppu: self.ppu, ..start }),
                self.ppu == (Ppu { oam: self.ppu.oam, ..start.ppu }),
                forall|k: int| 0 <= k < i ==> #[trigger] self.ppu.oam@[k] == start.read_spec(((page as int) * 0x100 + k) as u16),
                forall|k: int| i <= k < 0xA0 ==> #[trigger] self.ppu.oam@[k] == start.ppu.oam@[k],
            decreases 0xA0 - i,
        {
            let a = base + i;
            let v = self.read(a);
            assert(v == start.read_spec(a)) by {
                if 0xFE00 <= a <= 0xFE9F {
                    assert(a - 0xFE00 >= i);
                }
            }
            self.ppu.oam.set(i as usize, v);
            i = i + 1;
        }
    }

    fn hdma_copy_block(&mut self)
        requires
            old(self).wf(),
        ensures
            final(self).wf(),
            *final(self) == (Bus {
                ppu: final(self).ppu,
                hdma_src: final(self).hdma_src,
                hdma_dst: final(self).hdma_dst,
                ..*old(self)
            }),
            final(self).ppu == (Ppu { vram: final(self).ppu.vram, ..old(self).ppu }),
            (final(self).ppu.vram@, final(self).hdma_src, final(self).hdma_dst)
                == old(self).dma_run(old(self).ppu.vram@, old(self).hdma_src, old(self).hdma_dst, 16),
    {
        let ghost start = *self;
        let mut k: u8 = 0;
        while k < 16
            invariant
                k <= 16,
                self.wf(),
                *self == (Bus {
                    ppu: self.ppu,
                    hdma_src: self.hdma_src,
                    hdma_dst: self.hdma_dst,
                    ..start
                }),
                self.ppu == (Ppu { vram: self.ppu.vram, ..start.ppu }),
                start.dma_run(self.ppu.vram@, self.hdma_src, self.hdma_dst, (16 - k) as nat)
                    == start.dma_run(start.ppu.vram@, start.hdma_src, start.hdma_dst, 16),
            decreases 16 - k,
        {
            let v = self.read(self.hdma_src);
            assert(v == start.dma_byte(self.ppu.vram@, self.hdma_src));
            let dst = 0x8000 | (self.hdma_dst & 0x1FFF);
            self.ppu.write_vram(dst, v);
            self.hdma_src = self.hdma_src.wrapping_add(1);
            self.hdma_dst = (self.hdma_dst.wrapping_add(1)) & 0x1FFF;
            k = k + 1;
        }
    }

    fn hdma_block(&mut self)
        requires
            old(self).wf(),
        ensures
            final(self).wf(),
            *final(self) == (Bus {
                ppu: final(self).ppu,
                hdma_src: final(self).hdma_src,
                hdma_dst: final(self).hdma_dst,
                hdma_len: final(self).hdma_len,
                hdma_active: final(self).hdma_active,
                ..*old(self)
            }),
            final(self).ppu == (Ppu { vram: final(self).ppu.vram, ..old(self).ppu }),
            old(self).hdma_len == 0 ==> !final(self).hdma_active && final(self).hdma_len == 0xFF,
            old(self).hdma_len != 0 ==> final(self).hdma_active == old(self).hdma_active
                && final(self).hdma_len == old(self).hdma_len - 1,
            (final(self).ppu.vram@, final(self).hdma_src, final(self).hdma_dst)
                == old(self).dma_run(old(self).ppu.vram@, old(self).hdma_src, old(self).hdma_dst, 16),
    {
        self.hdma_copy_block();
        if self.hdma_len == 0 {
            self.hdma_active = false;
            self.hdma_len = 0xFF;
        } else {
            self.hdma_len = self.hdma_len - 1;
        }
    }
}

/// Interrupt flags after the PPU's VBlank and STAT requests of clocked
/// state `m`.
pub open spec fn video_iff(iff: u8, m: LcdModel) -> u8 {
    let f1 = if m.int_vblank { iff | INT_VBLANK } else { iff };
    if m.int_stat { f1 | INT_STAT } else { f1 }
}

/// `x + 1`, wrapping to 0.
pub open spec fn wrap_inc(x: u16) -> u16 {
    if x == 0xFFFF { 0 } else { (x + 1) as u16 }
}

/// A DMA transfer depends on the bus only through what it reads outside
/// VRAM and through the VRAM bank.
pub proof fn lemma_dma_run_frame(a: Bus, b: Bus, vram: Seq<u8>, src: u16, dst: u16, n: nat)
    requires
        a.ppu.vram_bank == b.ppu.vram_bank,
        forall|x: u16| !(0x8000 <= x <= 0x9FFF) ==> #[trigger] a.read_spec(x) == b.read_spec(x),
    ensures
        a.dma_run(vram, src, dst, n) == b.dma_run(vram, src, dst, n),
    decreases n,
{
    if n > 0 {
        let v = b.dma_byte(vram, src);
        assert(a.dma_byte(vram, src) == v);
        let next = vram.update(b.ppu.vram_index(0x8000 | (dst & 0x1FFF)), v);
        lemma_dma_run_frame(a, b, next, wrap_inc(src), wrap_inc(dst) & 0x1FFF, (n - 1) as nat);
    }
}

/// Transferring `m + n` bytes is transferring `m` bytes, then `n`.
pub proof fn lemma_dma_run_split(b: Bus, vram: Seq<u8>, src: u16, dst: u16, m: nat, n: nat)
    ensures
        b.dma_run(vram, src, dst, m + n) == ({
            let t = b.dma_run(vram, src, dst, m);
            b.dma_run(t.0, t.1, t.2, n)
        }),
    decreases m,
{
    if m > 0 {
        let v = b.dma_byte(vram, src);
        let next = vram.update(b.ppu.vram_index(0x8000 | (dst & 0x1FFF)), v);
        lemma_dma_run_split(b, next, wrap_inc(src), wrap_inc(dst) & 0x1FFF, (m - 1) as nat, n);
        assert((m + n) - 1 == (m - 1) + n);
    }
}

/// Setting the bits of `m` keeps the bits of `o` that were already set.
pub proof fn lemma_or_keeps(a: u8, m: u8, o: u8)
    requires
        a & o == o,
    ensures
        (a | m) & o == o,
        (a | m) & m == m,
{
    assert((a | m) & o == o && (a | m) & m == m) by (bit_vector)
        requires a & o == o;
}

/// Bit containment is transitive.
pub proof fn lemma_and_trans(a: u8, b: u8, c: u8)
    requires
        a & b == b,
        b & c == c,
    ensures
        a & c == c,
{
    assert(a & c == c) by (bit_vector)
        requires a & b == b, b & c == c;
}

pub proof fn lemma_and_self(a: u8)
    ensures
        a & a == a,
{
    assert(a & a == a) by (bit_vector);
}

/// Memory keeps what is written: after storing `val` at a VRAM, work RAM,
/// echo RAM, OAM, HRAM or IE address, reading that address returns `val`.
pub proof fn lemma_write_then_read(before: Bus, after: Bus, addr: u16, val: u8)
    requires
        before.wf(),
        Bus::is_plain_memory(addr),
        before.stored(after, addr, val),
    ensures
        after.read_spec(addr) == val,
{
    reveal(Bus::stored);
    crate::bits::lemma_and_le_u16(addr, 0x1FFF);
}

} // verus!
