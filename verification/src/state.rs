//! Save states: full machine snapshots (except APU internals, which games
//! re-drive continuously; audio recovers within a note or two).
//!
//! A snapshot is the image (see `image`) of a header (tag, format version,
//! ROM fingerprint) followed by four sections: CPU, bus, cartridge and PPU
//! state. Flags are stored as one byte, 1 or 0.

use vstd::prelude::*;
use crate::bus::Bus;
use crate::cartridge::{Cartridge, Rtc};
use crate::cpu::Cpu;
use crate::gameboy::Gameboy;
use crate::image::{Item, Kind, Reader, Writer, items_bytes, items_from, shape_len, shape_of};
use crate::ppu::Ppu;

verus! {

pub const VERSION: u32 = 1;

/// The snapshot tag, "OMST".
pub open spec fn state_tag() -> Seq<u8> {
    seq![0x4Fu8, 0x4Du8, 0x53u8, 0x54u8]
}

/// Number of fields in a snapshot.
pub const STATE_FIELDS: usize = 83;
/// Encoded size of a snapshot, cartridge RAM aside.
pub const STATE_FIXED_LEN: usize = 141882;
pub const IDX_RAM_LEN: usize = 37;

/// How a stored byte becomes machine state when a snapshot is loaded.
pub enum Norm {
    /// Taken as stored.
    Keep,
    /// A flag: any nonzero byte is set (1).
    Flag,
    /// The WRAM bank: the low three bits, 0 selecting bank 1.
    WramBank,
    /// The VRAM bank: the low bit.
    VramBank,
}

pub open spec fn norm_item(n: Norm, it: Item) -> Item {
    match it {
        Item::Byte(b) => match n {
            Norm::Keep => it,
            Norm::Flag => Item::Byte(if b != 0 { 1u8 } else { 0u8 }),
            Norm::WramBank => Item::Byte(if b & 7 == 0 { 1u8 } else { b & 7 }),
            Norm::VramBank => Item::Byte(b & 1),
        },
        _ => it,
    }
}

/// Fields as a machine holds them after loading: each normalized by its rule.
pub open spec fn normalize(norms: Seq<Norm>, items: Seq<Item>) -> Seq<Item> {
    Seq::new(items.len(), |i: int| norm_item(norms[i], items[i]))
}

pub proof fn lemma_normalize_concat(n1: Seq<Norm>, n2: Seq<Norm>, i1: Seq<Item>, i2: Seq<Item>)
    requires
        n1.len() == i1.len(),
        n2.len() == i2.len(),
    ensures
        normalize(n1 + n2, i1 + i2) == normalize(n1, i1) + normalize(n2, i2),
{
    assert(normalize(n1 + n2, i1 + i2) =~= normalize(n1, i1) + normalize(n2, i2));
}

/// The header: tag, version and the ROM fingerprint `fp`.
pub open spec fn header_items(fp: Seq<u8>) -> Seq<Item> {
    seq![Item::Bytes(state_tag()), Item::Long(VERSION), Item::Bytes(fp)]
}

pub open spec fn header_shape() -> Seq<Kind> {
    Seq::empty().push(Kind::Bytes(4)).push(Kind::Long).push(Kind::Bytes(28))
}

pub open spec fn header_norms() -> Seq<Norm> {
    seq![Norm::Keep, Norm::Keep, Norm::Keep]
}

/// Layout of the cpu section.
pub open spec fn cpu_shape() -> Seq<Kind> {
    Seq::empty()
        .push(Kind::Byte)
        .push(Kind::Byte)
        .push(Kind::Byte)
        .push(Kind::Byte)
        .push(Kind::Byte)
        .push(Kind::Byte)
        .push(Kind::Byte)
        .push(Kind::Byte)
        .push(Kind::Word)
        .push(Kind::Word)
        .push(Kind::Byte)
        .push(Kind::Byte)
        .push(Kind::Byte)
        .push(Kind::Byte)
}

pub open spec fn cpu_norms() -> Seq<Norm> {
    seq![Norm::Keep, Norm::Keep, Norm::Keep, Norm::Keep, Norm::Keep, Norm::Keep, Norm::Keep, Norm::Keep, Norm::Keep, Norm::Keep, Norm::Flag, Norm::Flag, Norm::Flag, Norm::Flag]
}

/// Layout of the bus section.
pub open spec fn bus_shape() -> Seq<Kind> {
    Seq::empty()
        .push(Kind::Bytes(0x8000))
        .push(Kind::Byte)
        .push(Kind::Bytes(0x7F))
        .push(Kind::Byte)
        .push(Kind::Byte)
        .push(Kind::Byte)
        .push(Kind::Byte)
        .push(Kind::Long)
        .push(Kind::Byte)
        .push(Kind::Byte)
        .push(Kind::Word)
        .push(Kind::Word)
        .push(Kind::Byte)
        .push(Kind::Byte)
        .push(Kind::Quad)
        .push(Kind::Word)
        .push(Kind::Byte)
        .push(Kind::Byte)
        .push(Kind::Byte)
        .push(Kind::Byte)
}

pub open spec fn bus_norms() -> Seq<Norm> {
    seq![Norm::Keep, Norm::WramBank, Norm::Keep, Norm::Keep, Norm::Keep, Norm::Keep, Norm::Keep, Norm::Keep, Norm::Flag, Norm::Flag, Norm::Keep, Norm::Keep, Norm::Keep, Norm::Flag, Norm::Keep, Norm::Keep, Norm::Keep, Norm::Keep, Norm::Keep, Norm::Keep]
}

/// Layout of the cart section.
pub open spec fn cart_shape(ram_len: nat) -> Seq<Kind> {
    Seq::empty()
        .push(Kind::Long)
        .push(Kind::Bytes(ram_len))
        .push(Kind::Byte)
        .push(Kind::Long)
        .push(Kind::Long)
        .push(Kind::Long)
        .push(Kind::Byte)
        .push(Kind::Byte)
        .push(Kind::Byte)
        .push(Kind::Byte)
        .push(Kind::Word)
        .push(Kind::Byte)
        .push(Kind::Byte)
        .push(Kind::Quad)
        .push(Kind::Byte)
        .push(Kind::Byte)
        .push(Kind::Byte)
        .push(Kind::Word)
        .push(Kind::Byte)
        .push(Kind::Byte)
        .push(Kind::Quad)
        .push(Kind::Byte)
}

pub open spec fn cart_norms() -> Seq<Norm> {
    seq![Norm::Keep, Norm::Keep, Norm::Flag, Norm::Keep, Norm::Keep, Norm::Keep, Norm::Flag, Norm::Keep, Norm::Keep, Norm::Keep, Norm::Keep, Norm::Flag, Norm::Flag, Norm::Keep, Norm::Keep, Norm::Keep, Norm::Keep, Norm::Keep, Norm::Flag, Norm::Flag, Norm::Keep, Norm::Keep]
}

/// Layout of the ppu section.
pub open spec fn ppu_shape() -> Seq<Kind> {
    Seq::empty()
        .push(Kind::Bytes(0x4000))
        .push(Kind::Byte)
        .push(Kind::Bytes(0xA0))
        .push(Kind::Byte)
        .push(Kind::Byte)
        .push(Kind::Byte)
        .push(Kind::Byte)
        .push(Kind::Byte)
        .push(Kind::Byte)
        .push(Kind::Byte)
        .push(Kind::Byte)
        .push(Kind::Byte)
        .push(Kind::Byte)
        .push(Kind::Byte)
        .push(Kind::Byte)
        .push(Kind::Byte)
        .push(Kind::Byte)
        .push(Kind::Bytes(64))
        .push(Kind::Bytes(64))
        .push(Kind::Byte)
        .push(Kind::Long)
        .push(Kind::Word)
        .push(Kind::Byte)
        .push(Kind::Longs(23040))
}

pub open spec fn ppu_norms() -> Seq<Norm> {
    seq![Norm::Keep, Norm::VramBank, Norm::Keep, Norm::Keep, Norm::Keep, Norm::Keep, Norm::Keep, Norm::Keep, Norm::Keep, Norm::Keep, Norm::Keep, Norm::Keep, Norm::Keep, Norm::Keep, Norm::Keep, Norm::Keep, Norm::Flag, Norm::Keep, Norm::Keep, Norm::Keep, Norm::Keep, Norm::Keep, Norm::Flag, Norm::Keep]
}

/// The layout of a snapshot for a cartridge with `ram_len` bytes of RAM.
pub open spec fn state_shape(ram_len: nat) -> Seq<Kind> {
    header_shape() + cpu_shape() + bus_shape() + cart_shape(ram_len) + ppu_shape()
}

/// How each field of a snapshot is loaded.
pub open spec fn state_norms() -> Seq<Norm> {
    header_norms() + cpu_norms() + bus_norms() + cart_norms() + ppu_norms()
}

/// Whether snapshot bytes `d` load into a machine whose ROM fingerprint is
/// `fp` and whose cartridge has `ram_len` bytes of RAM: the whole snapshot
/// is present, tag and version match, and it was taken of the same game with
/// the same RAM size.
pub open spec fn state_accepted(d: Seq<u8>, fp: Seq<u8>, ram_len: nat) -> bool {
    let sh = state_shape(ram_len);
    let it = items_from(d, sh);
    &&& shape_len(sh) <= d.len()
    &&& it[0] == Item::Bytes(state_tag())
    &&& it[1] == Item::Long(VERSION)
    &&& it[2] == Item::Bytes(fp)
    &&& it[IDX_RAM_LEN as int] == Item::Long(ram_len as u32)
}

/// The encoded size of a snapshot.
pub proof fn lemma_state_len(ram_len: nat)
    ensures
        shape_len(state_shape(ram_len)) == STATE_FIXED_LEN + ram_len,
{
    crate::image::lemma_shape_len_push();
    crate::image::lemma_shape_len_concat(header_shape(), cpu_shape());
    crate::image::lemma_shape_len_concat(header_shape() + cpu_shape(), bus_shape());
    crate::image::lemma_shape_len_concat(header_shape() + cpu_shape() + bus_shape(), cart_shape(ram_len));
    crate::image::lemma_shape_len_concat(header_shape() + cpu_shape() + bus_shape() + cart_shape(ram_len), ppu_shape());
    assert(shape_len(Seq::<Kind>::empty()) == 0);
}

/// WRAM bank number as loaded: the low three bits, 0 selecting bank 1.
fn wram_bank_from(b: u8) -> (r: usize)
    ensures
        r == (if b & 7 == 0 { 1 } else { (b & 7) as usize }),
        1 <= r <= 7,
{
    let v = b & 7;
    proof { crate::bits::lemma_and_le_u8(b, 7); }
    if v == 0 { 1 } else { v as usize }
}

/// The cpu section of a snapshot as stored.
pub struct CpuSnap {
    pub a: u8,
    pub f: u8,
    pub b: u8,
    pub c: u8,
    pub d: u8,
    pub e: u8,
    pub h: u8,
    pub l: u8,
    pub sp: u16,
    pub pc: u16,
    pub ime: u8,
    pub ime_pending: u8,
    pub halted: u8,
    pub halt_bug: u8,
}

impl CpuSnap {
    pub open spec fn items(self) -> Seq<Item> {
        seq![Item::Byte(self.a), Item::Byte(self.f), Item::Byte(self.b), Item::Byte(self.c), Item::Byte(self.d), Item::Byte(self.e), Item::Byte(self.h), Item::Byte(self.l), Item::Word(self.sp), Item::Word(self.pc), Item::Byte(self.ime), Item::Byte(self.ime_pending), Item::Byte(self.halted), Item::Byte(self.halt_bug)]
    }
}

/// The bus section of a snapshot as stored.
pub struct BusSnap {
    pub wram: Vec<u8>,
    pub wram_bank: u8,
    pub hram: Vec<u8>,
    pub ie: u8,
    pub iff: u8,
    pub sb: u8,
    pub sc: u8,
    pub serial_counter: u32,
    pub double_speed: u8,
    pub key1_armed: u8,
    pub hdma_src: u16,
    pub hdma_dst: u16,
    pub hdma_len: u8,
    pub hdma_active: u8,
    pub frame_cycles: u64,
    pub div: u16,
    pub tima: u8,
    pub tma: u8,
    pub tac: u8,
    pub select: u8,
}

impl BusSnap {
    pub open spec fn items(self) -> Seq<Item> {
        seq![Item::Bytes(self.wram@), Item::Byte(self.wram_bank), Item::Bytes(self.hram@), Item::Byte(self.ie), Item::Byte(self.iff), Item::Byte(self.sb), Item::Byte(self.sc), Item::Long(self.serial_counter), Item::Byte(self.double_speed), Item::Byte(self.key1_armed), Item::Word(self.hdma_src), Item::Word(self.hdma_dst), Item::Byte(self.hdma_len), Item::Byte(self.hdma_active), Item::Quad(self.frame_cycles), Item::Word(self.div), Item::Byte(self.tima), Item::Byte(self.tma), Item::Byte(self.tac), Item::Byte(self.select)]
    }
}

/// The cart section of a snapshot as stored.
pub struct CartSnap {
    pub stored_ram_len: u32,
    pub ram: Vec<u8>,
    pub ram_enabled: u8,
    pub rom_bank: u32,
    pub ram_bank: u32,
    pub bank_hi: u32,
    pub mbc1_mode: u8,
    pub rtc_seconds: u8,
    pub rtc_minutes: u8,
    pub rtc_hours: u8,
    pub rtc_days: u16,
    pub rtc_halted: u8,
    pub rtc_day_carry: u8,
    pub rtc_base: u64,
    pub latched_seconds: u8,
    pub latched_minutes: u8,
    pub latched_hours: u8,
    pub latched_days: u16,
    pub latched_halted: u8,
    pub latched_day_carry: u8,
    pub latched_base: u64,
    pub rtc_latch_state: u8,
}

impl CartSnap {
    pub open spec fn items(self) -> Seq<Item> {
        seq![Item::Long(self.stored_ram_len), Item::Bytes(self.ram@), Item::Byte(self.ram_enabled), Item::Long(self.rom_bank), Item::Long(self.ram_bank), Item::Long(self.bank_hi), Item::Byte(self.mbc1_mode)]
            + seq![Item::Byte(self.rtc_seconds), Item::Byte(self.rtc_minutes), Item::Byte(self.rtc_hours), Item::Word(self.rtc_days), Item::Byte(self.rtc_halted), Item::Byte(self.rtc_day_carry), Item::Quad(self.rtc_base)]
            + seq![Item::Byte(self.latched_seconds), Item::Byte(self.latched_minutes), Item::Byte(self.latched_hours), Item::Word(self.latched_days), Item::Byte(self.latched_halted), Item::Byte(self.latched_day_carry), Item::Quad(self.latched_base)]
            + seq![Item::Byte(self.rtc_latch_state)]
    }
}

/// The ppu section of a snapshot as stored.
pub struct PpuSnap {
    pub vram: Vec<u8>,
    pub vram_bank: u8,
    pub oam: Vec<u8>,
    pub lcdc: u8,
    pub stat: u8,
    pub scy: u8,
    pub scx: u8,
    pub ly: u8,
    pub lyc: u8,
    pub bgp: u8,
    pub obp0: u8,
    pub obp1: u8,
    pub wy: u8,
    pub wx: u8,
    pub bcps: u8,
    pub ocps: u8,
    pub opri: u8,
    pub bg_pal: Vec<u8>,
    pub ob_pal: Vec<u8>,
    pub mode: u8,
    pub dot: u32,
    pub window_line: u16,
    pub stat_line: u8,
    pub framebuffer: Vec<u32>,
}

impl PpuSnap {
    pub open spec fn items(self) -> Seq<Item> {
        seq![Item::Bytes(self.vram@), Item::Byte(self.vram_bank), Item::Bytes(self.oam@), Item::Byte(self.lcdc), Item::Byte(self.stat), Item::Byte(self.scy), Item::Byte(self.scx), Item::Byte(self.ly), Item::Byte(self.lyc), Item::Byte(self.bgp), Item::Byte(self.obp0), Item::Byte(self.obp1), Item::Byte(self.wy), Item::Byte(self.wx), Item::Byte(self.bcps), Item::Byte(self.ocps), Item::Byte(self.opri), Item::Bytes(self.bg_pal@), Item::Bytes(self.ob_pal@), Item::Byte(self.mode), Item::Long(self.dot), Item::Word(self.window_line), Item::Byte(self.stat_line), Item::Longs(self.framebuffer@)]
    }
}

/// A parsed snapshot.
pub struct Snapshot {
    pub cpu: CpuSnap,
    pub bus: BusSnap,
    pub cart: CartSnap,
    pub ppu: PpuSnap,
}

impl Snapshot {
    /// The snapshot's fields in image order, with fingerprint `fp`.
    pub open spec fn items(self, fp: Seq<u8>) -> Seq<Item> {
        header_items(fp) + self.cpu.items() + self.bus.items() + self.cart.items() + self.ppu.items()
    }
}

impl Rtc {
    /// The fields a real-time clock contributes to a snapshot.
    pub open spec fn state_items(self) -> Seq<Item> {
        seq![Item::Byte(self.seconds), Item::Byte(self.minutes), Item::Byte(self.hours), Item::Word(self.days), Item::Byte(if self.halted { 1u8 } else { 0u8 }), Item::Byte(if self.day_carry { 1u8 } else { 0u8 }), Item::Quad(self.base)]
    }

    fn write_state(&self, w: &mut Writer)
        requires
            old(w).wf(),
        ensures
            final(w).wf(),
            final(w).items@ == old(w).items@ + self.state_items(),
    {
        w.u8(self.seconds);
        w.u8(self.minutes);
        w.u8(self.hours);
        w.u16(self.days);
        w.b(self.halted);
        w.b(self.day_carry);
        w.u64(self.base);
        assert(w.items@ =~= old(w).items@ + self.state_items());
    }
}

impl Cpu {
    /// The fields this part of the machine contributes to a snapshot: its CPU registers and interrupt state.
    pub open spec fn state_items(self) -> Seq<Item> {
        seq![Item::Byte(self.a), Item::Byte(self.f), Item::Byte(self.b), Item::Byte(self.c), Item::Byte(self.d), Item::Byte(self.e), Item::Byte(self.h), Item::Byte(self.l), Item::Word(self.sp), Item::Word(self.pc), Item::Byte(if self.ime { 1u8 } else { 0u8 }), Item::Byte(if self.ime_pending { 1u8 } else { 0u8 }), Item::Byte(if self.halted { 1u8 } else { 0u8 }), Item::Byte(if self.halt_bug { 1u8 } else { 0u8 })]
    }

    #[verifier::rlimit(80)]
    #[verifier::spinoff_prover]
    fn write_state(&self, w: &mut Writer)
        requires
            old(w).wf(),
        ensures
            final(w).wf(),
            final(w).items@ == old(w).items@ + self.state_items(),
    {
        w.u8(self.a);
        w.u8(self.f);
        w.u8(self.b);
        w.u8(self.c);
        w.u8(self.d);
        w.u8(self.e);
        w.u8(self.h);
        w.u8(self.l);
        w.u16(self.sp);
        w.u16(self.pc);
        w.b(self.ime);
        w.b(self.ime_pending);
        w.b(self.halted);
        w.b(self.halt_bug);
        assert(w.items@ =~= old(w).items@ + self.state_items());
    }

    #[verifier::rlimit(40)]
    #[verifier::spinoff_prover]
    fn read_state(r: &mut Reader) -> (s: CpuSnap)
        requires
            old(r).wf(),
            old(r).p + 16 <= old(r).d@.len(),
        ensures
            final(r).wf(),
            final(r).d == old(r).d,
            final(r).p == old(r).p + 16,
            final(r).shape@ == old(r).shape@ + cpu_shape(),
            final(r).items() == old(r).items() + s.items(),
    {
        let a = r.u8();
        let f = r.u8();
        let b = r.u8();
        let c = r.u8();
        let d = r.u8();
        let e = r.u8();
        let h = r.u8();
        let l = r.u8();
        let sp = r.u16();
        let pc = r.u16();
        let ime = r.u8();
        let ime_pending = r.u8();
        let halted = r.u8();
        let halt_bug = r.u8();
        let s = CpuSnap { a, f, b, c, d, e, h, l, sp, pc, ime, ime_pending, halted, halt_bug };
        assert(r.shape@ =~= old(r).shape@ + cpu_shape());
        assert(r.items() =~= old(r).items() + s.items());
        s
    }
}

impl Bus {
    /// The fields this part of the machine contributes to a snapshot: its work and high RAM, interrupt, serial, speed, HDMA, timer and joypad registers.
    pub open spec fn state_items(self) -> Seq<Item> {
        seq![Item::Bytes(self.wram@), Item::Byte(self.wram_bank as u8), Item::Bytes(self.hram@), Item::Byte(self.ie), Item::Byte(self.iff), Item::Byte(self.sb), Item::Byte(self.sc), Item::Long(self.serial_counter as u32), Item::Byte(if self.double_speed { 1u8 } else { 0u8 }), Item::Byte(if self.key1_armed { 1u8 } else { 0u8 }), Item::Word(self.hdma_src), Item::Word(self.hdma_dst), Item::Byte(self.hdma_len), Item::Byte(if self.hdma_active { 1u8 } else { 0u8 }), Item::Quad(self.frame_cycles), Item::Word(self.timer.div), Item::Byte(self.timer.tima), Item::Byte(self.timer.tma), Item::Byte(self.timer.tac), Item::Byte(self.joypad.select)]
    }

    #[verifier::rlimit(80)]
    #[verifier::spinoff_prover]
    fn write_state(&self, w: &mut Writer)
        requires
            old(w).wf(),
        ensures
            final(w).wf(),
            final(w).items@ == old(w).items@ + self.state_items(),
    {
        w.bytes(self.wram.as_slice());
        w.u8(self.wram_bank as u8);
        w.bytes(self.hram.as_slice());
        w.u8(self.ie);
        w.u8(self.iff);
        w.u8(self.sb);
        w.u8(self.sc);
        w.u32(self.serial_counter as u32);
        w.b(self.double_speed);
        w.b(self.key1_armed);
        w.u16(self.hdma_src);
        w.u16(self.hdma_dst);
        w.u8(self.hdma_len);
        w.b(self.hdma_active);
        w.u64(self.frame_cycles);
        w.u16(self.timer.div);
        w.u8(self.timer.tima);
        w.u8(self.timer.tma);
        w.u8(self.timer.tac);
        w.u8(self.joypad.select);
        assert(w.items@ =~= old(w).items@ + self.state_items());
    }

    #[verifier::rlimit(40)]
    #[verifier::spinoff_prover]
    fn read_state(r: &mut Reader) -> (s: BusSnap)
        requires
            old(r).wf(),
            old(r).p + 32926 <= old(r).d@.len(),
        ensures
            final(r).wf(),
            final(r).d == old(r).d,
            final(r).p == old(r).p + 32926,
            final(r).shape@ == old(r).shape@ + bus_shape(),
            final(r).items() == old(r).items() + s.items(),
            s.wram@.len() == 0x8000,
            s.hram@.len() == 0x7F,
    {
        let wram = r.bytes(0x8000);
        let wram_bank = r.u8();
        let hram = r.bytes(0x7F);
        let ie = r.u8();
        let iff = r.u8();
        let sb = r.u8();
        let sc = r.u8();
        let serial_counter = r.u32();
        let double_speed = r.u8();
        let key1_armed = r.u8();
        let hdma_src = r.u16();
        let hdma_dst = r.u16();
        let hdma_len = r.u8();
        let hdma_active = r.u8();
        let frame_cycles = r.u64();
        let div = r.u16();
        let tima = r.u8();
        let tma = r.u8();
        let tac = r.u8();
        let select = r.u8();
        let s = BusSnap { wram, wram_bank, hram, ie, iff, sb, sc, serial_counter, double_speed, key1_armed, hdma_src, hdma_dst, hdma_len, hdma_active, frame_cycles, div, tima, tma, tac, select };
        assert(r.shape@ =~= old(r).shape@ + bus_shape());
        assert(r.items() =~= old(r).items() + s.items());
        s
    }
}

impl Cartridge {
    /// The fields this part of the machine contributes to a snapshot: its battery RAM, mapper registers and the real-time clock.
    pub open spec fn state_items(self) -> Seq<Item> {
        seq![Item::Long(self.ram@.len() as u32), Item::Bytes(self.ram@), Item::Byte(if self.ram_enabled { 1u8 } else { 0u8 }), Item::Long(self.rom_bank as u32), Item::Long(self.ram_bank as u32), Item::Long(self.bank_hi as u32), Item::Byte(if self.mbc1_mode { 1u8 } else { 0u8 })]
            + self.rtc.state_items() + self.rtc_latched.state_items()
            + seq![Item::Byte(self.rtc_latch_state)]
    }

    #[verifier::rlimit(80)]
    #[verifier::spinoff_prover]
    fn write_state(&self, w: &mut Writer)
        requires
            old(w).wf(),
        ensures
            final(w).wf(),
            final(w).items@ == old(w).items@ + self.state_items(),
    {
        w.u32(self.ram.len() as u32);
        w.bytes(self.ram.as_slice());
        w.b(self.ram_enabled);
        w.u32(self.rom_bank as u32);
        w.u32(self.ram_bank as u32);
        w.u32(self.bank_hi as u32);
        w.b(self.mbc1_mode);
        let ghost mid = w.items@;
        assert(mid =~= old(w).items@ + seq![Item::Long(self.ram@.len() as u32), Item::Bytes(self.ram@), Item::Byte(if self.ram_enabled { 1u8 } else { 0u8 }), Item::Long(self.rom_bank as u32), Item::Long(self.ram_bank as u32), Item::Long(self.bank_hi as u32), Item::Byte(if self.mbc1_mode { 1u8 } else { 0u8 })]);
        self.rtc.write_state(w);
        self.rtc_latched.write_state(w);
        w.u8(self.rtc_latch_state);
        assert(w.items@ =~= old(w).items@ + self.state_items());
    }

    #[verifier::rlimit(40)]
    #[verifier::spinoff_prover]
    fn read_state(r: &mut Reader, ram_len: usize) -> (s: CartSnap)
        requires
            old(r).wf(),
            old(r).p + 49 + ram_len <= old(r).d@.len(),
        ensures
            final(r).wf(),
            final(r).d == old(r).d,
            final(r).p == old(r).p + 49 + ram_len,
            final(r).shape@ == old(r).shape@ + cart_shape(ram_len as nat),
            final(r).items() == old(r).items() + s.items(),
            s.ram@.len() == ram_len,
    {
        let stored_ram_len = r.u32();
        let ram = r.bytes(ram_len);
        let ram_enabled = r.u8();
        let rom_bank = r.u32();
        let ram_bank = r.u32();
        let bank_hi = r.u32();
        let mbc1_mode = r.u8();
        let rtc_seconds = r.u8();
        let rtc_minutes = r.u8();
        let rtc_hours = r.u8();
        let rtc_days = r.u16();
        let rtc_halted = r.u8();
        let rtc_day_carry = r.u8();
        let rtc_base = r.u64();
        let latched_seconds = r.u8();
        let latched_minutes = r.u8();
        let latched_hours = r.u8();
        let latched_days = r.u16();
        let latched_halted = r.u8();
        let latched_day_carry = r.u8();
        let latched_base = r.u64();
        let rtc_latch_state = r.u8();
        let s = CartSnap { stored_ram_len, ram, ram_enabled, rom_bank, ram_bank, bank_hi, mbc1_mode, rtc_seconds, rtc_minutes, rtc_hours, rtc_days, rtc_halted, rtc_day_carry, rtc_base, latched_seconds, latched_minutes, latched_hours, latched_days, latched_halted, latched_day_carry, latched_base, rtc_latch_state };
        assert(r.shape@ =~= old(r).shape@ + cart_shape(ram_len as nat));
        assert(r.items() =~= old(r).items() + s.items());
        s
    }
}

impl Ppu {
    /// The fields this part of the machine contributes to a snapshot: its video memory, LCD registers, palettes, timing and the frame buffer.
    pub open spec fn state_items(self) -> Seq<Item> {
        seq![Item::Bytes(self.vram@), Item::Byte(self.vram_bank as u8), Item::Bytes(self.oam@), Item::Byte(self.lcdc), Item::Byte(self.stat), Item::Byte(self.scy), Item::Byte(self.scx), Item::Byte(self.ly), Item::Byte(self.lyc), Item::Byte(self.bgp), Item::Byte(self.obp0), Item::Byte(self.obp1), Item::Byte(self.wy), Item::Byte(self.wx), Item::Byte(self.bcps), Item::Byte(self.ocps), Item::Byte(if self.opri { 1u8 } else { 0u8 }), Item::Bytes(self.bg_pal@), Item::Bytes(self.ob_pal@), Item::Byte(self.mode), Item::Long(self.dot), Item::Word(self.window_line), Item::Byte(if self.stat_line { 1u8 } else { 0u8 }), Item::Longs(self.framebuffer@)]
    }

    #[verifier::rlimit(80)]
    #[verifier::spinoff_prover]
    fn write_state(&self, w: &mut Writer)
        requires
            old(w).wf(),
        ensures
            final(w).wf(),
            final(w).items@ == old(w).items@ + self.state_items(),
    {
        w.bytes(self.vram.as_slice());
        w.u8(self.vram_bank as u8);
        w.bytes(self.oam.as_slice());
        w.u8(self.lcdc);
        w.u8(self.stat);
        w.u8(self.scy);
        w.u8(self.scx);
        w.u8(self.ly);
        w.u8(self.lyc);
        w.u8(self.bgp);
        w.u8(self.obp0);
        w.u8(self.obp1);
        w.u8(self.wy);
        w.u8(self.wx);
        w.u8(self.bcps);
        w.u8(self.ocps);
        w.b(self.opri);
        w.bytes(self.bg_pal.as_slice());
        w.bytes(self.ob_pal.as_slice());
        w.u8(self.mode);
        w.u32(self.dot);
        w.u16(self.window_line);
        w.b(self.stat_line);
        w.longs(&self.framebuffer);
        assert(w.items@ =~= old(w).items@ + self.state_items());
    }

    #[verifier::rlimit(40)]
    #[verifier::spinoff_prover]
    fn read_state(r: &mut Reader) -> (s: PpuSnap)
        requires
            old(r).wf(),
            old(r).p + 108855 <= old(r).d@.len(),
        ensures
            final(r).wf(),
            final(r).d == old(r).d,
            final(r).p == old(r).p + 108855,
            final(r).shape@ == old(r).shape@ + ppu_shape(),
            final(r).items() == old(r).items() + s.items(),
            s.vram@.len() == 0x4000,
            s.oam@.len() == 0xA0,
            s.bg_pal@.len() == 64,
            s.ob_pal@.len() == 64,
            s.framebuffer@.len() == 23040,
    {
        let vram = r.bytes(0x4000);
        let vram_bank = r.u8();
        let oam = r.bytes(0xA0);
        let lcdc = r.u8();
        let stat = r.u8();
        let scy = r.u8();
        let scx = r.u8();
        let ly = r.u8();
        let lyc = r.u8();
        let bgp = r.u8();
        let obp0 = r.u8();
        let obp1 = r.u8();
        let wy = r.u8();
        let wx = r.u8();
        let bcps = r.u8();
        let ocps = r.u8();
        let opri = r.u8();
        let bg_pal = r.bytes(64);
        let ob_pal = r.bytes(64);
        let mode = r.u8();
        let dot = r.u32();
        let window_line = r.u16();
        let stat_line = r.u8();
        let framebuffer = r.longs(23040);
        let s = PpuSnap { vram, vram_bank, oam, lcdc, stat, scy, scx, ly, lyc, bgp, obp0, obp1, wy, wx, bcps, ocps, opri, bg_pal, ob_pal, mode, dot, window_line, stat_line, framebuffer };
        assert(r.shape@ =~= old(r).shape@ + ppu_shape());
        assert(r.items() =~= old(r).items() + s.items());
        s
    }
}

impl Cpu {
    /// Take on the state held in a snapshot section.
    fn restore_state(&mut self, s: CpuSnap)
        ensures
            final(self).state_items() == normalize(cpu_norms(), s.items()),
    {
        self.a = s.a;
        self.f = s.f;
        self.b = s.b;
        self.c = s.c;
        self.d = s.d;
        self.e = s.e;
        self.h = s.h;
        self.l = s.l;
        self.sp = s.sp;
        self.pc = s.pc;
        self.ime = s.ime != 0;
        self.ime_pending = s.ime_pending != 0;
        self.halted = s.halted != 0;
        self.halt_bug = s.halt_bug != 0;
        assert(self.state_items() =~= normalize(cpu_norms(), s.items()));
    }
}

impl Bus {
    /// Take on the state held in a snapshot section.
    fn restore_state(&mut self, s: BusSnap)
        requires
            old(self).wf(),
            s.wram@.len() == 0x8000,
            s.hram@.len() == 0x7F,
        ensures
            final(self).wf(),
            final(self).cart == old(self).cart,
            final(self).ppu == old(self).ppu,
            final(self).apu == old(self).apu,
            final(self).cgb == old(self).cgb,
            final(self).serial_out@ == old(self).serial_out@,
            final(self).joypad.buttons == old(self).joypad.buttons,
            final(self).joypad.interrupt == old(self).joypad.interrupt,
            !final(self).timer.interrupt,
            final(self).state_items() == normalize(bus_norms(), s.items()),
    {
        self.wram = s.wram;
        self.wram_bank = wram_bank_from(s.wram_bank);
        self.hram = s.hram;
        self.ie = s.ie;
        self.iff = s.iff;
        self.sb = s.sb;
        self.sc = s.sc;
        self.serial_counter = s.serial_counter as i32;
        self.double_speed = s.double_speed != 0;
        self.key1_armed = s.key1_armed != 0;
        self.hdma_src = s.hdma_src;
        self.hdma_dst = s.hdma_dst;
        self.hdma_len = s.hdma_len;
        self.hdma_active = s.hdma_active != 0;
        self.frame_cycles = s.frame_cycles;
        self.clock = Ghost(s.frame_cycles as int);
        self.timer.div = s.div;
        self.timer.tima = s.tima;
        self.timer.tma = s.tma;
        self.timer.tac = s.tac;
        self.joypad.select = s.select;
        self.timer.interrupt = false;
        let ghost v = s.serial_counter;
        assert((v as i32) as u32 == v) by (bit_vector);
        assert(self.state_items() =~= normalize(bus_norms(), s.items()));
    }
}

impl Cartridge {
    /// Take on the state held in a snapshot section.
    fn restore_state(&mut self, s: CartSnap)
        requires
            old(self).wf(),
            s.ram@.len() == old(self).ram@.len(),
            s.stored_ram_len as int == old(self).ram@.len(),
        ensures
            final(self).wf(),
            final(self).rom == old(self).rom,
            final(self).mbc == old(self).mbc,
            final(self).has_battery == old(self).has_battery,
            final(self).has_rtc == old(self).has_rtc,
            final(self).title == old(self).title,
            final(self).cgb == old(self).cgb,
            final(self).rom_bank_count == old(self).rom_bank_count,
            final(self).ram_bank_count == old(self).ram_bank_count,
            final(self).ram_dirty,
            final(self).state_items() == normalize(cart_norms(), s.items()),
    {
        self.ram = s.ram;
        self.ram_enabled = s.ram_enabled != 0;
        self.rom_bank = s.rom_bank as usize;
        self.ram_bank = s.ram_bank as usize;
        self.bank_hi = s.bank_hi as usize;
        self.mbc1_mode = s.mbc1_mode != 0;
        self.rtc.seconds = s.rtc_seconds;
        self.rtc.minutes = s.rtc_minutes;
        self.rtc.hours = s.rtc_hours;
        self.rtc.days = s.rtc_days;
        self.rtc.halted = s.rtc_halted != 0;
        self.rtc.day_carry = s.rtc_day_carry != 0;
        self.rtc.base = s.rtc_base;
        self.rtc_latched.seconds = s.latched_seconds;
        self.rtc_latched.minutes = s.latched_minutes;
        self.rtc_latched.hours = s.latched_hours;
        self.rtc_latched.days = s.latched_days;
        self.rtc_latched.halted = s.latched_halted != 0;
        self.rtc_latched.day_carry = s.latched_day_carry != 0;
        self.rtc_latched.base = s.latched_base;
        self.rtc_latch_state = s.rtc_latch_state;
        // battery contents changed; persist on next autosave
        self.ram_dirty = true;
        assert(self.state_items() =~= normalize(cart_norms(), s.items()));
    }
}

impl Ppu {
    /// Take on the state held in a snapshot section.
    fn restore_state(&mut self, s: PpuSnap)
        requires
            old(self).wf(),
            s.vram@.len() == 0x4000,
            s.oam@.len() == 0xA0,
            s.bg_pal@.len() == 64,
            s.ob_pal@.len() == 64,
            s.framebuffer@.len() == 23040,
        ensures
            final(self).wf(),
            final(self).cgb == old(self).cgb,
            final(self).dmg_colors == old(self).dmg_colors,
            final(self).color_correction == old(self).color_correction,
            final(self).line_bg_index == old(self).line_bg_index,
            final(self).line_bg_prio == old(self).line_bg_prio,
            !final(self).int_vblank,
            !final(self).int_stat,
            !final(self).entered_hblank,
            !final(self).frame_ready,
            final(self).state_items() == normalize(ppu_norms(), s.items()),
    {
        self.vram = s.vram;
        self.vram_bank = (s.vram_bank & 1) as usize;
        self.oam = s.oam;
        self.lcdc = s.lcdc;
        self.stat = s.stat;
        self.scy = s.scy;
        self.scx = s.scx;
        self.ly = s.ly;
        self.lyc = s.lyc;
        self.bgp = s.bgp;
        self.obp0 = s.obp0;
        self.obp1 = s.obp1;
        self.wy = s.wy;
        self.wx = s.wx;
        self.bcps = s.bcps;
        self.ocps = s.ocps;
        self.opri = s.opri != 0;
        self.bg_pal = s.bg_pal;
        self.ob_pal = s.ob_pal;
        self.mode = s.mode;
        self.dot = s.dot;
        self.window_line = s.window_line;
        self.stat_line = s.stat_line != 0;
        self.framebuffer = s.framebuffer;
        self.int_vblank = false;
        self.int_stat = false;
        self.entered_hblank = false;
        self.frame_ready = false;
        proof { crate::bits::lemma_and_le_u8(s.vram_bank, 1); }
        assert(self.state_items() =~= normalize(ppu_norms(), s.items()));
    }
}

impl Gameboy {
    /// ROM identity: title and checksums from the header.
    pub open spec fn fingerprint_spec(self) -> Seq<u8> {
        self.bus.cart.rom@.subrange(0x134, 0x150)
    }

    /// The fields a snapshot of this machine records, in image order.
    pub open spec fn state_items(self) -> Seq<Item> {
        header_items(self.fingerprint_spec()) + self.cpu.state_items() + self.bus.state_items()
            + self.bus.cart.state_items() + self.bus.ppu.state_items()
    }

    /// The state a snapshot does not record is the same in `self` and `other`.
    pub open spec fn unsaved_parts_same(self, other: Gameboy) -> bool {
        &&& self.bus.cart.rom@ == other.bus.cart.rom@
        &&& self.bus.cart.mbc == other.bus.cart.mbc
        &&& self.bus.cart.has_battery == other.bus.cart.has_battery
        &&& self.bus.cart.has_rtc == other.bus.cart.has_rtc
        &&& self.bus.cart.title@ == other.bus.cart.title@
        &&& self.bus.cart.cgb == other.bus.cart.cgb
        &&& self.bus.cart.rom_bank_count == other.bus.cart.rom_bank_count
        &&& self.bus.cart.ram_bank_count == other.bus.cart.ram_bank_count
        &&& self.bus.apu == other.bus.apu
        &&& self.bus.cgb == other.bus.cgb
        &&& self.bus.joypad.buttons == other.bus.joypad.buttons
        &&& self.bus.joypad.interrupt == other.bus.joypad.interrupt
        &&& self.bus.serial_out@ == other.bus.serial_out@
        &&& self.bus.ppu.cgb == other.bus.ppu.cgb
        &&& self.bus.ppu.dmg_colors == other.bus.ppu.dmg_colors
        &&& self.bus.ppu.color_correction == other.bus.ppu.color_correction
        &&& self.bus.ppu.line_bg_index@ == other.bus.ppu.line_bg_index@
        &&& self.bus.ppu.line_bg_prio@ == other.bus.ppu.line_bg_prio@
    }

    /// Pending-event flags are clear and the battery RAM is marked for saving.
    pub open spec fn transients_reset(self) -> bool {
        &&& !self.bus.timer.interrupt
        &&& self.bus.cart.ram_dirty
        &&& !self.bus.ppu.int_vblank
        &&& !self.bus.ppu.int_stat
        &&& !self.bus.ppu.entered_hblank
        &&& !self.bus.ppu.frame_ready
    }

    fn fingerprint(&self) -> (fp: Vec<u8>)
        requires
            self.wf(),
        ensures
            fp@ == self.fingerprint_spec(),
    {
        crate::image::copy_bytes(vstd::slice::slice_subrange(self.bus.cart.rom.as_slice(), 0x134, 0x150))
    }

    /// Serialize the machine state.
    pub fn save_state(&self) -> (out: Vec<u8>)
        requires
            self.wf(),
        ensures
            out@ == items_bytes(self.state_items()),
    {
        let mut w = Writer::new();
        let tag: [u8; 4] = [0x4F, 0x4D, 0x53, 0x54];
        w.bytes(tag.as_slice());
        w.u32(VERSION);
        let fp = self.fingerprint();
        w.bytes(fp.as_slice());
        proof {
            assert(tag@ =~= state_tag());
            assert(w.items@ =~= header_items(self.fingerprint_spec()));
        }
        self.cpu.write_state(&mut w);
        self.bus.write_state(&mut w);
        self.bus.cart.write_state(&mut w);
        self.bus.ppu.write_state(&mut w);
        w.buf
    }

    /// Restore a snapshot taken by `save_state`. A snapshot of another game,
    /// of a different RAM size, with bad tag or version, or truncated is
    /// refused and leaves the machine untouched.
    pub fn load_state(&mut self, data: &[u8]) -> (ok: bool)
        requires
            old(self).wf(),
        ensures
            final(self).wf(),
            ok == state_accepted(data@, old(self).fingerprint_spec(), old(self).bus.cart.ram@.len()),
            ok ==> final(self).state_items() == normalize(
                state_norms(),
                items_from(data@, state_shape(old(self).bus.cart.ram@.len())),
            ),
            !ok ==> *final(self) == *old(self),
            ok ==> final(self).transients_reset(),
            ok ==> final(self).unsaved_parts_same(*old(self)),
    {
        let fp = self.fingerprint();
        let ram_len = self.bus.cart.ram.len();
        match parse_state(data, fp.as_slice(), ram_len) {
            Some(s) => {
                let ghost before = *self;
                let Snapshot { cpu, bus, cart, ppu } = s;
                self.cpu.restore_state(cpu);
                self.bus.restore_state(bus);
                self.bus.cart.restore_state(cart);
                self.bus.ppu.restore_state(ppu);
                proof {
                    assert(self.fingerprint_spec() =~= before.fingerprint_spec());
                    lemma_normalize_state(before.fingerprint_spec(), s);
                }
                true
            },
            None => false,
        }
    }
}

/// Loading normalizes a snapshot section by section; the header is kept.
proof fn lemma_normalize_state(fp: Seq<u8>, s: Snapshot)
    ensures
        normalize(state_norms(), s.items(fp)) == header_items(fp) + normalize(cpu_norms(), s.cpu.items())
            + normalize(bus_norms(), s.bus.items()) + normalize(cart_norms(), s.cart.items())
            + normalize(ppu_norms(), s.ppu.items()),
{
    let h = header_items(fp);
    lemma_normalize_concat(header_norms(), cpu_norms(), h, s.cpu.items());
    lemma_normalize_concat(header_norms() + cpu_norms(), bus_norms(), h + s.cpu.items(), s.bus.items());
    lemma_normalize_concat(header_norms() + cpu_norms() + bus_norms(), cart_norms(),
        h + s.cpu.items() + s.bus.items(), s.cart.items());
    lemma_normalize_concat(header_norms() + cpu_norms() + bus_norms() + cart_norms(), ppu_norms(),
        h + s.cpu.items() + s.bus.items() + s.cart.items(), s.ppu.items());
    assert(normalize(header_norms(), h) =~= h);
}

/// Read the fields of a snapshot taken of the game with fingerprint `fp`
/// and a cartridge with `ram_len` bytes of RAM.
pub fn parse_state(data: &[u8], fp: &[u8], ram_len: usize) -> (r: Option<Snapshot>)
    requires
        fp@.len() == 28,
        ram_len <= 0x20000,
    ensures
        (r is Some) == state_accepted(data@, fp@, ram_len as nat),
        r matches Some(s) ==> {
            &&& s.items(fp@) == items_from(data@, state_shape(ram_len as nat))
            &&& s.cart.ram@.len() == ram_len
            &&& s.cart.stored_ram_len as int == ram_len
            &&& s.bus.wram@.len() == 0x8000
            &&& s.bus.hram@.len() == 0x7F
            &&& s.ppu.vram@.len() == 0x4000
            &&& s.ppu.oam@.len() == 0xA0
            &&& s.ppu.bg_pal@.len() == 64
            &&& s.ppu.ob_pal@.len() == 64
            &&& s.ppu.framebuffer@.len() == 23040
        },
{
    let total = STATE_FIXED_LEN + ram_len;
    proof { lemma_state_len(ram_len as nat); }
    if data.len() < total {
        return None;
    }
    let mut r = Reader::new(data);
    assert(r.items() =~= Seq::<Item>::empty());
    let tag = r.bytes(4);
    let version = r.u32();
    let fp_read = r.bytes(28);
    assert(r.shape@ =~= header_shape());
    let ghost head = r.items();
    assert(head =~= seq![Item::Bytes(tag@), Item::Long(version), Item::Bytes(fp_read@)]);
    let cpu = Cpu::read_state(&mut r);
    let bus = Bus::read_state(&mut r);
    let cart = Cartridge::read_state(&mut r, ram_len);
    let ppu = Ppu::read_state(&mut r);
    let ghost it = r.items();
    assert(it == head + cpu.items() + bus.items() + cart.items() + ppu.items());
    assert(r.shape@ == state_shape(ram_len as nat));
    let mtag: [u8; 4] = [0x4F, 0x4D, 0x53, 0x54];
    assert(mtag@ =~= state_tag());
    if !bytes_eq(tag.as_slice(), mtag.as_slice()) || version != VERSION {
        return None;
    }
    if !bytes_eq(fp_read.as_slice(), fp) {
        return None;
    }
    if cart.stored_ram_len as usize != ram_len {
        return None;
    }
    let s = Snapshot { cpu, bus, cart, ppu };
    assert(head =~= header_items(fp@));
    Some(s)
}

/// Byte-wise equality.
fn bytes_eq(a: &[u8], b: &[u8]) -> (r: bool)
    ensures
        r == (a@ == b@),
{
    if a.len() != b.len() {
        return false;
    }
    let mut i: usize = 0;
    while i < a.len()
        invariant
            i <= a@.len(),
            a@.len() == b@.len(),
            forall|k: int| 0 <= k < i ==> a@[k] == b@[k],
        decreases a@.len() - i,
    {
        if a[i] != b[i] {
            return false;
        }
        i = i + 1;
    }
    assert(a@ =~= b@);
    true
}

proof fn lemma_cpu_shape(c: Cpu)
    ensures
        shape_of(c.state_items()) == cpu_shape(),
{
    assert(shape_of(c.state_items()) =~= cpu_shape());
}

proof fn lemma_bus_shape(b: Bus)
    requires
        b.wram@.len() == 0x8000,
        b.hram@.len() == 0x7F,
    ensures
        shape_of(b.state_items()) == bus_shape(),
{
    assert(shape_of(b.state_items()) =~= bus_shape());
}

proof fn lemma_cart_shape(c: Cartridge)
    ensures
        shape_of(c.state_items()) == cart_shape(c.ram@.len()),
{
    assert(shape_of(c.state_items()) =~= cart_shape(c.ram@.len()));
}

proof fn lemma_ppu_shape(p: Ppu)
    requires
        p.buffers_ok(),
    ensures
        shape_of(p.state_items()) == ppu_shape(),
{
    assert(shape_of(p.state_items()) =~= ppu_shape());
}

/// The fields a machine records have the snapshot layout for its RAM size.
proof fn lemma_state_shape(g: Gameboy)
    requires
        g.wf(),
    ensures
        shape_of(g.state_items()) == state_shape(g.bus.cart.ram@.len()),
{
    let c = g.bus.cart;
    let h = header_items(g.fingerprint_spec());
    assert(state_tag().len() == 4);
    assert(shape_of(h) =~= header_shape());
    lemma_cpu_shape(g.cpu);
    lemma_bus_shape(g.bus);
    lemma_cart_shape(c);
    lemma_ppu_shape(g.bus.ppu);
    crate::image::lemma_shape_of_concat(h, g.cpu.state_items());
    crate::image::lemma_shape_of_concat(h + g.cpu.state_items(), g.bus.state_items());
    crate::image::lemma_shape_of_concat(h + g.cpu.state_items() + g.bus.state_items(), c.state_items());
    crate::image::lemma_shape_of_concat(h + g.cpu.state_items() + g.bus.state_items() + c.state_items(),
        g.bus.ppu.state_items());
}

proof fn lemma_cpu_normal(c: Cpu)
    ensures
        normalize(cpu_norms(), c.state_items()) == c.state_items(),
{
    assert(normalize(cpu_norms(), c.state_items()) =~= c.state_items());
}

proof fn lemma_bus_normal(b: Bus)
    requires
        1 <= b.wram_bank <= 7,
    ensures
        normalize(bus_norms(), b.state_items()) == b.state_items(),
{
    let wb = b.wram_bank as u8;
    assert(1 <= wb <= 7 ==> (wb & 7 == wb && wb & 7 != 0)) by (bit_vector);
    assert(normalize(bus_norms(), b.state_items()) =~= b.state_items());
}

proof fn lemma_cart_normal(c: Cartridge)
    ensures
        normalize(cart_norms(), c.state_items()) == c.state_items(),
{
    assert(normalize(cart_norms(), c.state_items()) =~= c.state_items());
}

proof fn lemma_ppu_normal(p: Ppu)
    requires
        p.vram_bank <= 1,
    ensures
        normalize(ppu_norms(), p.state_items()) == p.state_items(),
{
    let vb = p.vram_bank as u8;
    assert(vb <= 1 ==> vb & 1 == vb) by (bit_vector);
    assert(normalize(ppu_norms(), p.state_items()) =~= p.state_items());
}

/// The fields a well-formed machine records are already in loaded form.
proof fn lemma_state_normal(g: Gameboy)
    requires
        g.wf(),
    ensures
        normalize(state_norms(), g.state_items()) == g.state_items(),
{
    let h = header_items(g.fingerprint_spec());
    let b = g.bus;
    assert(normalize(header_norms(), h) =~= h);
    lemma_cpu_normal(g.cpu);
    lemma_bus_normal(b);
    lemma_cart_normal(b.cart);
    lemma_ppu_normal(b.ppu);
    lemma_normalize_concat(header_norms(), cpu_norms(), h, g.cpu.state_items());
    lemma_normalize_concat(header_norms() + cpu_norms(), bus_norms(), h + g.cpu.state_items(), b.state_items());
    lemma_normalize_concat(header_norms() + cpu_norms() + bus_norms(), cart_norms(),
        h + g.cpu.state_items() + b.state_items(), b.cart.state_items());
    lemma_normalize_concat(header_norms() + cpu_norms() + bus_norms() + cart_norms(), ppu_norms(),
        h + g.cpu.state_items() + b.state_items() + b.cart.state_items(), b.ppu.state_items());
}

/// A snapshot decodes back to the fields it records.
proof fn lemma_state_decodes(g: Gameboy)
    requires
        g.wf(),
    ensures
        items_from(items_bytes(g.state_items()), state_shape(g.bus.cart.ram@.len())) == g.state_items(),
        items_bytes(g.state_items()).len() == shape_len(state_shape(g.bus.cart.ram@.len())),
{
    let x = g.state_items();
    lemma_state_shape(g);
    crate::image::lemma_items_roundtrip(x, Seq::empty());
    assert(items_bytes(x) + Seq::<u8>::empty() =~= items_bytes(x));
}

/// Save then load restores the recorded state: a snapshot of a machine is
/// accepted by any machine running the same game with the same RAM size, and
/// the machine that loads it then records exactly the saved fields (so it
/// saves the same bytes).
pub proof fn lemma_state_roundtrip(g: Gameboy, h: Gameboy)
    requires
        g.wf(),
        h.wf(),
        h.fingerprint_spec() == g.fingerprint_spec(),
        h.bus.cart.ram@.len() == g.bus.cart.ram@.len(),
    ensures
        state_accepted(items_bytes(g.state_items()), h.fingerprint_spec(), h.bus.cart.ram@.len()),
        normalize(state_norms(), items_from(items_bytes(g.state_items()), state_shape(h.bus.cart.ram@.len())))
            == g.state_items(),
{
    lemma_state_decodes(g);
    lemma_state_normal(g);
    let x = g.state_items();
    assert(x[0] == Item::Bytes(state_tag()));
    assert(x[2] == Item::Bytes(g.fingerprint_spec()));
    assert(x[IDX_RAM_LEN as int] == Item::Long(g.bus.cart.ram@.len() as u32));
}

/// The header fields of a snapshot decode the same whatever its RAM size.
proof fn lemma_state_header(d: Seq<u8>, ram_len: nat)
    ensures
        items_from(d, state_shape(ram_len)).subrange(0, 3) == items_from(d, header_shape()),
{
    let rest = cpu_shape() + bus_shape() + cart_shape(ram_len) + ppu_shape();
    assert(state_shape(ram_len) =~= header_shape() + rest);
    crate::image::lemma_items_from_concat_prefix(d, header_shape(), rest);
}

/// A snapshot of one game is refused by a machine running another.
pub proof fn lemma_state_rejects_other_game(g: Gameboy, h: Gameboy)
    requires
        g.wf(),
        h.wf(),
        h.fingerprint_spec() != g.fingerprint_spec(),
    ensures
        !state_accepted(items_bytes(g.state_items()), h.fingerprint_spec(), h.bus.cart.ram@.len()),
{
    let d = items_bytes(g.state_items());
    lemma_state_decodes(g);
    lemma_state_header(d, g.bus.cart.ram@.len());
    lemma_state_header(d, h.bus.cart.ram@.len());
    let it_g = items_from(d, state_shape(g.bus.cart.ram@.len()));
    let it_h = items_from(d, state_shape(h.bus.cart.ram@.len()));
    crate::image::lemma_items_from_len(d, state_shape(g.bus.cart.ram@.len()));
    crate::image::lemma_items_from_len(d, state_shape(h.bus.cart.ram@.len()));
    assert(it_g.subrange(0, 3)[2] == it_h.subrange(0, 3)[2]);
    assert(it_g[2] == Item::Bytes(g.fingerprint_spec()));
    if it_h[2] == Item::Bytes(h.fingerprint_spec()) {
        assert(it_h[2] == it_g[2]);
        assert(g.fingerprint_spec() == h.fingerprint_spec());
    }
}

/// A snapshot cut short is refused.
pub proof fn lemma_state_rejects_truncation(g: Gameboy, h: Gameboy, k: int)
    requires
        g.wf(),
        h.bus.cart.ram@.len() == g.bus.cart.ram@.len(),
        0 <= k < items_bytes(g.state_items()).len(),
    ensures
        !state_accepted(items_bytes(g.state_items()).take(k), h.fingerprint_spec(), h.bus.cart.ram@.len()),
{
    lemma_state_decodes(g);
}

} // verus!
