//! The whole machine: CPU plus bus, reset and frame stepping.

use vstd::prelude::*;
use crate::bus::Bus;
use crate::cartridge::{Cartridge, CartError, cart_kind};
use crate::cpu::Cpu;
use crate::ppu::Ppu;
use crate::joypad::Joypad;
use crate::timer::Timer;

verus! {

/// Most real-time cycles a frame may run for when the PPU never finishes one
/// (for instance with the LCD off).
pub const FRAME_CYCLE_CAP: u64 = 80000;

pub struct Gameboy {
    pub cpu: Cpu,
    pub bus: Bus,
}

impl Gameboy {
    pub open spec fn wf(self) -> bool {
        self.bus.wf()
    }

    /// Power-on state for the cartridge `rom` (registers as after the boot ROM).
    pub open spec fn powered_on(self) -> bool {
        let cgb = self.bus.cart.cgb;
        &&& self.cpu.sp == 0xFFFE && self.cpu.pc == 0x0100
        &&& !self.cpu.ime && !self.cpu.ime_pending && !self.cpu.halted && !self.cpu.halt_bug
        &&& cgb ==> self.cpu.a == 0x11 && self.cpu.f == 0x80 && self.cpu.b == 0x00 && self.cpu.c == 0x00
            && self.cpu.d == 0xFF && self.cpu.e == 0x56 && self.cpu.h == 0x00 && self.cpu.l == 0x0D
        &&& !cgb ==> self.cpu.a == 0x01 && self.cpu.f == 0xB0 && self.cpu.b == 0x00 && self.cpu.c == 0x13
            && self.cpu.d == 0x00 && self.cpu.e == 0xD8 && self.cpu.h == 0x01 && self.cpu.l == 0x4D
        &&& self.cpu.flags_clean()
        &&& self.bus.cgb == cgb
        &&& self.bus.ppu.powered(cgb)
        &&& self.bus.apu.fresh()
        &&& self.bus.timer == Timer::new_spec()
        &&& self.bus.joypad == (Joypad { select: 0x30, buttons: 0, interrupt: false })
        &&& self.bus.wram@ == Seq::new(0x8000, |i: int| 0u8)
        &&& self.bus.hram@ == Seq::new(0x7F, |i: int| 0u8)
        &&& self.bus.wram_bank == 1
        &&& self.bus.ie == 0 && self.bus.iff == 0xE1
        &&& self.bus.sb == 0 && self.bus.sc == 0x7E && self.bus.serial_counter == 0
        &&& self.bus.serial_out@.len() == 0
        &&& !self.bus.double_speed && !self.bus.key1_armed
        &&& self.bus.hdma_src == 0 && self.bus.hdma_dst == 0 && self.bus.hdma_len == 0xFF && !self.bus.hdma_active
        &&& self.bus.frame_cycles == 0 && self.bus.clock@ == 0
    }

    pub fn new(rom: Vec<u8>) -> (r: Result<Gameboy, CartError>)
        ensures
            rom@.len() < 0x150 ==> r == Err::<Gameboy, CartError>(CartError::TooSmall),
            rom@.len() >= 0x150 && cart_kind(rom@[0x147]) is None ==> r == Err::<Gameboy, CartError>(CartError::UnsupportedType(rom@[0x147])),
            rom@.len() >= 0x150 && cart_kind(rom@[0x147]) is Some ==> (r matches Ok(gb) && gb.wf()
                && gb.bus.cart.loaded_from(rom@) && gb.powered_on()),
    {
        let cart = match Cartridge::new(rom) {
            Ok(c) => c,
            Err(e) => return Err(e),
        };
        let cgb = cart.cgb;
        Ok(Gameboy { cpu: Cpu::new(cgb), bus: Bus::new(cart) })
    }

    /// Power-cycle the machine: the cartridge is loaded again from its ROM
    /// (mapper, clock registers and latch back to power-on), keeping its
    /// battery RAM and the display settings (DMG palette, color correction).
    pub fn reset(&mut self)
        requires
            old(self).wf(),
        ensures
            final(self).wf(),
            final(self).powered_on(),
            final(self).bus.cart.powered_from(old(self).bus.cart.rom@),
            final(self).bus.cart.ram@ == old(self).bus.cart.ram@,
            final(self).bus.ppu.dmg_colors == old(self).bus.ppu.dmg_colors,
            final(self).bus.ppu.color_correction == old(self).bus.ppu.color_correction,
    {
        let mut rom: Vec<u8> = Vec::new();
        core::mem::swap(&mut rom, &mut self.bus.cart.rom);
        let mut ram: Vec<u8> = Vec::new();
        core::mem::swap(&mut ram, &mut self.bus.cart.ram);
        let dmg_colors = self.bus.ppu.dmg_colors;
        let color_correction = self.bus.ppu.color_correction;
        match Gameboy::new(rom) {
            Ok(fresh) => {
                let mut fresh = fresh;
                fresh.bus.cart.ram = ram;
                fresh.bus.ppu.dmg_colors = dmg_colors;
                fresh.bus.ppu.color_correction = color_correction;
                *self = fresh;
            },
            Err(_) => {},
        }
    }

    /// Clear the frame-ready flag, then run CPU steps (at least one) until
    /// the PPU completes a frame, or until `FRAME_CYCLE_CAP` real cycles have
    /// passed (so a disabled LCD can't spin forever). The game is kept.
    pub fn run_frame(&mut self)
        requires
            old(self).wf(),
        ensures
            final(self).wf(),
            exists|t: Seq<(Cpu, Bus)>| #[trigger] frame_run(t, old(self).cpu, old(self).bus)
                && t.last() == (final(self).cpu, final(self).bus),
            final(self).bus.ppu.frame_ready || final(self).bus.clock@ - old(self).bus.clock@ > FRAME_CYCLE_CAP,
            old(self).bus.clock@ < final(self).bus.clock@ <= old(self).bus.clock@ + FRAME_CYCLE_CAP + 24,
            final(self).bus.cart.rom@ == old(self).bus.cart.rom@,
            final(self).bus.cart.ram@.len() == old(self).bus.cart.ram@.len(),
            old(self).cpu.flags_clean() ==> final(self).cpu.flags_clean(),
    {
        self.bus.ppu.frame_ready = false;
        let start = self.bus.frame_cycles;
        let ghost clock0 = self.bus.clock@;
        let ghost mut t: Seq<(Cpu, Bus)> = seq![(self.cpu, self.bus)];
        assert(t[0] == (old(self).cpu, cleared(old(self).bus)));
        while !self.bus.ppu.frame_ready
            invariant_except_break
                self.bus.clock@ <= clock0 + FRAME_CYCLE_CAP,
            invariant
                self.wf(),
                0 <= clock0 <= self.bus.clock@ <= clock0 + FRAME_CYCLE_CAP + 24,
                self.bus.cart.rom@ == old(self).bus.cart.rom@,
                self.bus.cart.ram@.len() == old(self).bus.cart.ram@.len(),
                start as int == clock0 % 0x1_0000_0000_0000_0000,
                self.bus.clock@ > clock0 || !self.bus.ppu.frame_ready,
                t.len() >= 1,
                t[0] == (old(self).cpu, cleared(old(self).bus)),
                clock0 == old(self).bus.clock@,
                old(self).cpu.flags_clean() ==> self.cpu.flags_clean(),
                t.last() == (self.cpu, self.bus),
                t.len() >= 2 || !self.bus.ppu.frame_ready,
                forall|i: int| 0 <= i < t.len() - 1 ==> #[trigger] step_link(t, i),
                forall|i: int| 1 <= i < t.len() - 1 ==> #[trigger] in_frame(t, i),
            ensures
                self.bus.ppu.frame_ready || self.bus.clock@ - clock0 > FRAME_CYCLE_CAP,
                self.bus.clock@ > clock0,
                t.len() >= 2,
                t[0] == (old(self).cpu, cleared(old(self).bus)),
                t.last() == (self.cpu, self.bus),
                forall|i: int| 0 <= i < t.len() - 1 ==> #[trigger] step_link(t, i),
                forall|i: int| 1 <= i < t.len() - 1 ==> #[trigger] in_frame(t, i),
            decreases clock0 + FRAME_CYCLE_CAP - self.bus.clock@,
        {
            let ghost t_before = t;
            self.cpu.step(&mut self.bus);
            proof {
                t = t_before.push((self.cpu, self.bus));
                assert forall|i: int| 0 <= i < t.len() - 1 implies #[trigger] step_link(t, i) by {
                    if i < t_before.len() - 1 {
                        assert(step_link(t_before, i));
                    }
                }
                assert forall|i: int| 1 <= i < t.len() - 1 implies #[trigger] in_frame(t, i) by {
                    if i < t_before.len() - 1 {
                        assert(in_frame(t_before, i));
                    }
                }
            }
            let ran = self.bus.frame_cycles.wrapping_sub(start);
            proof {
                lemma_counter_difference(start, self.bus.frame_cycles, clock0, self.bus.clock@);
            }
            if ran > FRAME_CYCLE_CAP {
                break;
            }
        }
        assert(frame_run(t, old(self).cpu, old(self).bus));
    }
}

/// The bus with its frame-ready flag cleared, as `run_frame` starts from it.
pub open spec fn cleared(b: Bus) -> Bus {
    Bus { ppu: Ppu { frame_ready: false, ..b.ppu }, ..b }
}

/// State `i + 1` of `t` is one `Cpu::step` on from state `i`.
pub open spec fn step_link(t: Seq<(Cpu, Bus)>, i: int) -> bool {
    t[i].0.step_result(t[i].1, t[i + 1].0, t[i + 1].1)
}

/// State `i` of `t` had no finished frame and was still within the cycle cap
/// counted from state 0, so `run_frame` went on from it.
pub open spec fn in_frame(t: Seq<(Cpu, Bus)>, i: int) -> bool {
    !t[i].1.ppu.frame_ready && t[i].1.clock@ - t[0].1.clock@ <= FRAME_CYCLE_CAP
}

/// `t` is a run of `run_frame` from `cpu` on `bus`: it starts there with the
/// frame flag cleared, takes at least one step, each state is one `Cpu::step`
/// on from the one before, and every state between the first and the last
/// had no finished frame and was within the cycle cap.
pub open spec fn frame_run(t: Seq<(Cpu, Bus)>, cpu: Cpu, bus: Bus) -> bool {
    &&& t.len() >= 2
    &&& t[0] == (cpu, cleared(bus))
    &&& forall|i: int| 0 <= i < t.len() - 1 ==> #[trigger] step_link(t, i)
    &&& forall|i: int| 1 <= i < t.len() - 1 ==> #[trigger] in_frame(t, i)
}

/// A wrapping counter's difference is the true difference while that fits.
proof fn lemma_counter_difference(start: u64, now: u64, c0: int, c1: int)
    requires
        0 <= c0 <= c1 < c0 + 0x1_0000_0000_0000_0000,
        start as int == c0 % 0x1_0000_0000_0000_0000,
        now as int == c1 % 0x1_0000_0000_0000_0000,
    ensures
        vstd::wrapping::u64_specs::wrapping_sub(now, start) == c1 - c0,
{
}

} // verus!
