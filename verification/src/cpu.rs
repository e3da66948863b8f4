//! SM83 (Game Boy CPU) interpreter.
//!
//! Timing model: every memory access ticks the bus by one M-cycle (4
//! T-cycles), and instructions with internal cycles tick explicitly. This
//! yields correct per-instruction timing and sub-instruction hardware
//! synchronisation.

use vstd::prelude::*;
use crate::bus::Bus;

verus! {

pub const FZ: u8 = 0x80;

pub const FN: u8 = 0x40;

pub const FH: u8 = 0x20;

pub const FC: u8 = 0x10;

/// The flag register value for the four flags.
pub open spec fn flags(z: bool, n: bool, h: bool, c: bool) -> u8 {
    (if z { FZ } else { 0 }) | (if n { FN } else { 0 }) | (if h { FH } else { 0 }) | (if c { FC } else { 0 })
}

/// 8-bit wrapping addition.
pub open spec fn add8(x: u8, y: u8) -> u8 {
    ((x + y) % 256) as u8
}

/// 8-bit wrapping subtraction.
pub open spec fn sub8(x: u8, y: u8) -> u8 {
    ((x - y + 256) % 256) as u8
}

/// 16-bit register pair from its high and low halves.
pub open spec fn pair(hi: u8, lo: u8) -> u16 {
    (hi as int * 256 + lo as int) as u16
}

pub open spec fn hi_byte(v: u16) -> u8 {
    (v / 256) as u8
}

pub open spec fn lo_byte(v: u16) -> u8 {
    (v % 256) as u8
}

pub open spec fn inc16(v: u16) -> u16 {
    if v == 0xFFFF { 0 } else { (v + 1) as u16 }
}

pub open spec fn dec16(v: u16) -> u16 {
    if v == 0 { 0xFFFF } else { (v - 1) as u16 }
}

/// Lowest pending interrupt (0 = VBlank .. 4 = joypad) of a non-zero mask.
pub open spec fn lowest_interrupt(pending: u8) -> u8 {
    if pending & 1 != 0 {
        0
    } else if pending & 2 != 0 {
        1
    } else if pending & 4 != 0 {
        2
    } else if pending & 8 != 0 {
        3
    } else {
        4
    }
}

/// Memory that the CPU's writes simply store to and that bus ticks leave
/// alone: work RAM, OAM, HRAM and IE (echo RAM aside, as it aliases work
/// RAM).
pub open spec fn plain_ram(a: u16) -> bool {
    (0xC000 <= a <= 0xDFFF) || (0xFE00 <= a <= 0xFE9F) || 0xFF80 <= a
}

/// Memory the CPU can rely on within one instruction: everything but VRAM
/// (which an HBlank DMA may fill during a bus tick) and the I/O registers.
/// Bus ticks leave ROM, cartridge RAM, work RAM and its echo, OAM, HRAM
/// and IE alone; only the CPU's own writes change them.
pub open spec fn steady(a: u16) -> bool {
    a <= 0x7FFF || (0xA000 <= a <= 0xFEFF) || 0xFF80 <= a
}

/// The byte at `a` after the writes `w`, in order, on top of bus `b`.
pub open spec fn mem_after(b: Bus, w: Seq<(u16, u8)>, a: u16) -> u8
    decreases w.len(),
{
    if w.len() == 0 {
        b.read_spec(a)
    } else if w.last().0 == a {
        w.last().1
    } else {
        mem_after(b, w.drop_last(), a)
    }
}

/// The plain RAM of `now` (work RAM, OAM, HRAM, IE) is that of `before`
/// with the writes `w` applied.
pub open spec fn stack_holds(now: Bus, before: Bus, w: Seq<(u16, u8)>) -> bool {
    forall|a: u16| plain_ram(a) ==> #[trigger] now.read_spec(a) == mem_after(before, w, a)
}

/// 16-bit wrapping addition.
pub open spec fn add16(x: u16, y: u16) -> u16 {
    ((x + y) % 0x10000) as u16
}

/// An 8-bit signed displacement widened to 16 bits.
pub open spec fn sext(e: u8) -> u16 {
    if e < 128 { e as u16 } else { (e as int + 0xFF00) as u16 }
}

/// No instruction takes more than five M-cycles after its fetch.
pub proof fn lemma_exec_mcycles_bound(c: Cpu, op: u8, b: Bus)
    ensures
        0 <= c.exec_mcycles(op, b) <= 5,
{
}

/// What a store of `val` at `addr`, as an instruction's last bus access,
/// leaves whatever the bus ticks before it did: the cartridge's response
/// (MBC registers, cartridge RAM, RTC); in plain memory (VRAM, work and echo
/// RAM, OAM, HRAM, IE), the stored byte; and for an I/O register, the
/// register write applied to the bus as it stood just before the store
/// (with the RAM and cartridge of `before`).
#[verifier::opaque]
pub open spec fn store_lands(before: Bus, after: Bus, addr: u16, val: u8) -> bool {
    &&& before.cart_stored(after.cart, addr, val)
    &&& Bus::is_plain_memory(addr) ==> after.read_spec(addr) == val
    &&& 0xFF00 <= addr <= 0xFF7F ==> exists|mid: Bus|
        mid.ram_kept(before) && mid.cart == before.cart && #[trigger] mid.io_written(after, addr, val)
}

/// Where a store lands does not depend on what the bus ticks before it
/// kept unchanged.
pub proof fn lemma_store_lands_rebase(b1: Bus, b0: Bus, after: Bus, addr: u16, val: u8)
    requires
        b1.ram_kept(b0),
        b1.cart == b0.cart,
        store_lands(b1, after, addr, val),
    ensures
        store_lands(b0, after, addr, val),
{
    reveal(store_lands);
    if 0xFF00 <= addr <= 0xFF7F {
        let mid = choose|mid: Bus| mid.ram_kept(b1) && mid.cart == b1.cart && #[trigger] mid.io_written(after, addr, val);
        assert(mid.ram_kept(b0));
    }
}

/// `after` is `before` once two M-cycles have each stored a byte in plain
/// memory: `v1` at `a1`, then `v2` at `a2`.
pub open spec fn two_stores(before: Bus, after: Bus, a1: u16, v1: u8, a2: u16, v2: u8) -> bool {
    exists|m1: Bus, m2: Bus, m3: Bus|
        #![trigger before.tick_result(m1, 4), m1.stored(m2, a1, v1), m2.tick_result(m3, 4)]
        before.tick_result(m1, 4) && m1.stored(m2, a1, v1) && m2.tick_result(m3, 4) && m3.stored(after, a2, v2)
}

/// `after` is `before` once an interrupt dispatch has run on the bus: two
/// internal M-cycles, the request bit `k` cleared in IF, the return address
/// `pc` pushed below `sp` (high byte first), and one more M-cycle.
pub open spec fn dispatch_bus(before: Bus, after: Bus, k: u8, sp: u16, pc: u16) -> bool {
    exists|b1: Bus, b2: Bus| #![trigger before.tick_result(b1, 8), b2.tick_result(after, 4)]
        before.tick_result(b1, 8)
        && two_stores(Bus { iff: b1.iff & !(1u8 << k), ..b1 }, b2, dec16(sp), hi_byte(pc), dec16(dec16(sp)), lo_byte(pc))
        && b2.tick_result(after, 4)
}

/// Real-time cycles of one M-cycle at the bus's current speed.
pub open spec fn mcycle(b: Bus) -> int {
    if b.double_speed { 2 } else { 4 }
}

/// M-cycles of CB-prefixed opcode `op` after its operand fetch: (HL)
/// operands are read, and written back unless the opcode is a BIT test.
pub open spec fn cb_mcycles(op: u8) -> int {
    if op % 8 != 6 { 0 } else if op / 64 == 1 { 1 } else { 2 }
}

/// Plain RAM reads the same on two buses that keep the same RAM.
pub proof fn lemma_ram_kept_stack(now: Bus, before: Bus)
    requires
        now.ram_kept(before),
    ensures
        stack_holds(now, before, Seq::empty()),
{
}

/// Keeping the RAM preserves what writes left there.
pub proof fn lemma_stack_holds_kept(b2: Bus, b1: Bus, b0: Bus, w: Seq<(u16, u8)>)
    requires
        stack_holds(b1, b0, w),
        b2.ram_kept(b1),
    ensures
        stack_holds(b2, b0, w),
{
    assert forall|a: u16| plain_ram(a) implies #[trigger] b2.read_spec(a) == mem_after(b0, w, a) by {
        assert(b2.read_spec(a) == b1.read_spec(a));
    }
}

/// What writes leave in plain RAM depends only on that RAM beforehand.
pub proof fn lemma_stack_holds_rebase(b2: Bus, b1: Bus, b0: Bus, w: Seq<(u16, u8)>)
    requires
        stack_holds(b2, b1, w),
        b1.ram_kept(b0),
    ensures
        stack_holds(b2, b0, w),
{
    assert forall|a: u16| plain_ram(a) implies #[trigger] b2.read_spec(a) == mem_after(b0, w, a) by {
        lemma_mem_after_rebase(b1, b0, w, a);
    }
}

proof fn lemma_mem_after_rebase(b1: Bus, b0: Bus, w: Seq<(u16, u8)>, a: u16)
    requires
        b1.ram_kept(b0),
        plain_ram(a),
    ensures
        mem_after(b1, w, a) == mem_after(b0, w, a),
    decreases w.len(),
{
    if w.len() > 0 {
        lemma_mem_after_rebase(b1, b0, w.drop_last(), a);
    }
}

/// One store to plain RAM after steps that kept the RAM.
pub proof fn lemma_one_store(b2: Bus, b1: Bus, b0: Bus, addr: u16, val: u8)
    requires
        b1.ram_kept(b0),
        plain_ram(addr),
        b2.read_spec(addr) == val,
        forall|a: u16| plain_ram(a) && a != addr ==> #[trigger] b2.read_spec(a) == b1.read_spec(a),
    ensures
        stack_holds(b2, b0, seq![(addr, val)]),
{
    lemma_ram_kept_stack(b1, b0);
    lemma_stack_holds_write(b2, b1, b0, Seq::empty(), addr, val);
}

/// A write to plain RAM extends the writes held there.
pub proof fn lemma_stack_holds_write(b2: Bus, b1: Bus, b0: Bus, w: Seq<(u16, u8)>, addr: u16, val: u8)
    requires
        stack_holds(b1, b0, w),
        plain_ram(addr),
        b2.read_spec(addr) == val,
        forall|a: u16| plain_ram(a) && a != addr ==> #[trigger] b2.read_spec(a) == b1.read_spec(a),
    ensures
        stack_holds(b2, b0, w.push((addr, val))),
{
    let w2 = w.push((addr, val));
    assert(w2.drop_last() =~= w);
    assert forall|a: u16| plain_ram(a) implies #[trigger] b2.read_spec(a) == mem_after(b0, w2, a) by {
        if a != addr {
            assert(b2.read_spec(a) == b1.read_spec(a));
        }
    }
}

pub struct Cpu {
    pub a: u8,
    pub f: u8,
    pub b: u8,
    pub c: u8,
    pub d: u8,
    pub e: u8,
    pub h: u8,
    pub l: u8,
    pub sp: u16,
    pub pc: u16,
    pub ime: bool,
    pub ime_pending: bool,
    pub halted: bool,
    pub halt_bug: bool,
}


impl Cpu {
    /// The low nibble of F always reads as zero.
    pub open spec fn flags_clean(self) -> bool {
        self.f & 0x0F == 0
    }

    pub open spec fn flag_spec(self, m: u8) -> bool {
        self.f & m != 0
    }

    pub open spec fn hl_spec(self) -> u16 {
        pair(self.h, self.l)
    }

    pub open spec fn bc_spec(self) -> u16 {
        pair(self.b, self.c)
    }

    pub open spec fn de_spec(self) -> u16 {
        pair(self.d, self.e)
    }

    pub open spec fn af_spec(self) -> u16 {
        pair(self.a, self.f)
    }

    pub open spec fn with_bc(self, v: u16) -> Cpu {
        Cpu { b: hi_byte(v), c: lo_byte(v), ..self }
    }

    pub open spec fn with_de(self, v: u16) -> Cpu {
        Cpu { d: hi_byte(v), e: lo_byte(v), ..self }
    }

    pub open spec fn with_hl(self, v: u16) -> Cpu {
        Cpu { h: hi_byte(v), l: lo_byte(v), ..self }
    }

    pub open spec fn with_af(self, v: u16) -> Cpu {
        Cpu { a: hi_byte(v), f: lo_byte(v) & 0xF0, ..self }
    }

    /// 8-bit register by operand index (0=B 1=C 2=D 3=E 4=H 5=L 7=A; 6 is (HL)).
    pub open spec fn r8(self, idx: u8) -> u8 {
        if idx == 0 {
            self.b
        } else if idx == 1 {
            self.c
        } else if idx == 2 {
            self.d
        } else if idx == 3 {
            self.e
        } else if idx == 4 {
            self.h
        } else if idx == 5 {
            self.l
        } else {
            self.a
        }
    }

    pub open spec fn with_r8(self, idx: u8, v: u8) -> Cpu {
        if idx == 0 {
            Cpu { b: v, ..self }
        } else if idx == 1 {
            Cpu { c: v, ..self }
        } else if idx == 2 {
            Cpu { d: v, ..self }
        } else if idx == 3 {
            Cpu { e: v, ..self }
        } else if idx == 4 {
            Cpu { h: v, ..self }
        } else if idx == 5 {
            Cpu { l: v, ..self }
        } else {
            Cpu { a: v, ..self }
        }
    }

    /// ADD/ADC: A + v (+ carry flag for ADC).
    pub open spec fn added(self, v: u8, carry: bool) -> Cpu {
        let c: int = if carry && self.flag_spec(FC) { 1 } else { 0 };
        let sum: int = self.a + v + c;
        let r = (sum % 256) as u8;
        Cpu { a: r, f: flags(r == 0, false, (self.a & 0x0F) + (v & 0x0F) + c > 0x0F, sum > 0xFF), ..self }
    }

    /// SUB/SBC/CP: A - v (- carry flag for SBC); CP keeps A.
    pub open spec fn subtracted(self, v: u8, carry: bool, store: bool) -> Cpu {
        let c: int = if carry && self.flag_spec(FC) { 1 } else { 0 };
        let diff: int = self.a - v - c;
        let r = ((diff + 512) % 256) as u8;
        Cpu {
            a: if store { r } else { self.a },
            f: flags(r == 0, true, (self.a & 0x0F) < (v & 0x0F) + c, diff < 0),
            ..self
        }
    }

    pub open spec fn anded(self, v: u8) -> Cpu {
        let r = self.a & v;
        Cpu { a: r, f: flags(r == 0, false, true, false), ..self }
    }

    pub open spec fn xored(self, v: u8) -> Cpu {
        let r = self.a ^ v;
        Cpu { a: r, f: flags(r == 0, false, false, false), ..self }
    }

    pub open spec fn ored(self, v: u8) -> Cpu {
        let r = self.a | v;
        Cpu { a: r, f: flags(r == 0, false, false, false), ..self }
    }

    /// The ALU operation of group `sel` (ADD ADC SUB SBC AND XOR OR CP) on A and v.
    pub open spec fn alu(self, sel: u8, v: u8) -> Cpu {
        if sel == 0 {
            self.added(v, false)
        } else if sel == 1 {
            self.added(v, true)
        } else if sel == 2 {
            self.subtracted(v, false, true)
        } else if sel == 3 {
            self.subtracted(v, true, true)
        } else if sel == 4 {
            self.anded(v)
        } else if sel == 5 {
            self.xored(v)
        } else if sel == 6 {
            self.ored(v)
        } else {
            self.subtracted(v, false, false)
        }
    }

    /// Flags after INC of `v` (carry kept).
    pub open spec fn inc_flags(self, v: u8) -> u8 {
        let r: u8 = if v == 255 { 0 } else { (v + 1) as u8 };
        (self.f & FC) | (if r == 0 { FZ } else { 0 }) | (if v & 0x0F == 0x0F { FH } else { 0 })
    }

    /// Flags after DEC of `v` (carry kept).
    pub open spec fn dec_flags(self, v: u8) -> u8 {
        let r: u8 = if v == 0 { 255 } else { (v - 1) as u8 };
        (self.f & FC) | FN | (if r == 0 { FZ } else { 0 }) | (if v & 0x0F == 0 { FH } else { 0 })
    }

    /// ADD HL,v (zero flag kept).
    pub open spec fn hl_added(self, v: u16) -> Cpu {
        let hl = self.hl_spec();
        let sum: int = hl + v;
        Cpu {
            f: (self.f & FZ) | (if (hl & 0x0FFF) + (v & 0x0FFF) > 0x0FFF { FH } else { 0 }) | (if sum > 0xFFFF { FC } else { 0 }),
            ..self
        }.with_hl((sum % 0x10000) as u16)
    }

    /// Decimal adjust of A after a BCD addition or subtraction.
    pub open spec fn daa_result(self) -> Cpu {
        let n = self.flag_spec(FN);
        let hf = self.flag_spec(FH);
        let cf = self.flag_spec(FC);
        let a0 = self.a;
        let carry = cf || (!n && a0 > 0x99);
        let a1: u8 = if !n && carry { add8(a0, 0x60) } else if n && cf { sub8(a0, 0x60) } else { a0 };
        let a2: u8 = if !n && (hf || (a1 & 0x0F) > 0x09) {
            add8(a1, 0x06)
        } else if n && hf {
            sub8(a1, 0x06)
        } else {
            a1
        };
        Cpu {
            a: a2,
            f: (self.f & (FN | FC)) | (if a2 == 0 { FZ } else { 0 }) | (if carry { FC } else { 0 }),
            ..self
        }
    }

    /// Result of CB-prefix shift/rotate `sel` (RLC RRC RL RR SLA SRA SWAP SRL) on v.
    pub open spec fn shift_result(self, sel: u8, v: u8) -> u8 {
        let cin: u8 = if self.flag_spec(FC) { 1 } else { 0 };
        if sel == 0 {
            (v << 1u8) | (v >> 7u8)
        } else if sel == 1 {
            (v >> 1u8) | (v << 7u8)
        } else if sel == 2 {
            (v << 1u8) | cin
        } else if sel == 3 {
            (v >> 1u8) | (cin << 7u8)
        } else if sel == 4 {
            v << 1u8
        } else if sel == 5 {
            (v >> 1u8) | (v & 0x80)
        } else if sel == 6 {
            (v << 4u8) | (v >> 4u8)
        } else {
            v >> 1u8
        }
    }

    /// Carry out of shift/rotate `sel` on v (SWAP clears carry).
    pub open spec fn shift_carry(sel: u8, v: u8) -> bool {
        if sel == 6 {
            false
        } else if sel == 0 || sel == 2 || sel == 4 {
            v & 0x80 != 0
        } else {
            v & 1 != 0
        }
    }

    pub open spec fn shifted_flags(self, sel: u8, v: u8) -> u8 {
        flags(self.shift_result(sel, v) == 0, false, false, Cpu::shift_carry(sel, v))
    }

    /// Flags of SP plus displacement `e`: carries out of bit 3 and bit 7.
    pub open spec fn sp_offset_flags(self, e: u8) -> u8 {
        let d = sext(e);
        flags(false, false, (self.sp & 0x0F) + (d & 0x0F) > 0x0F, (self.sp & 0xFF) + (d & 0xFF) > 0xFF)
    }

    /// The byte operand following the opcode.
    pub open spec fn imm8(self, b: Bus) -> u8 {
        b.read_spec(self.pc)
    }

    /// The little-endian word operand following the opcode.
    pub open spec fn imm16(self, b: Bus) -> u16 {
        pair(b.read_spec(inc16(self.pc)), b.read_spec(self.pc))
    }

    /// Both operand bytes lie in steady memory.
    pub open spec fn imm16_ok(self) -> bool {
        steady(self.pc) && steady(inc16(self.pc))
    }

    /// PC advanced past `n` operand bytes.
    pub open spec fn skip(self, n: nat) -> Cpu {
        if n == 1 {
            Cpu { pc: inc16(self.pc), ..self }
        } else {
            Cpu { pc: inc16(inc16(self.pc)), ..self }
        }
    }

    /// The word on top of the stack.
    pub open spec fn popped(self, b: Bus) -> u16 {
        pair(b.read_spec(inc16(self.sp)), b.read_spec(self.sp))
    }

    /// The stack's top two bytes lie in plain RAM.
    pub open spec fn pop_ok(self) -> bool {
        plain_ram(self.sp) && plain_ram(inc16(self.sp))
    }

    /// The two bytes below SP lie in plain RAM.
    pub open spec fn push_ok(self) -> bool {
        plain_ram(dec16(self.sp)) && plain_ram(dec16(dec16(self.sp)))
    }

    /// The stores of pushing `v`: high byte first, just below SP.
    pub open spec fn push_writes(self, v: u16) -> Seq<(u16, u8)> {
        seq![(dec16(self.sp), hi_byte(v)), (dec16(dec16(self.sp)), lo_byte(v))]
    }

    /// The effect of opcode `op` when it touches no memory beyond its own
    /// fetch; `None` for instructions that read or write memory, use the
    /// stack, take operands, or depend on interrupt state.
    pub open spec fn reg_effect(self, op: u8) -> Option<Cpu> {
        let dst = (op / 8 % 8) as u8;
        let src = (op % 8) as u8;
        if op == 0x00 || op == 0xD3 || op == 0xDB || op == 0xDD || op == 0xE3 || op == 0xE4
            || op == 0xEB || op == 0xEC || op == 0xED || op == 0xF4 || op == 0xFC || op == 0xFD {
            // NOP; unused opcodes hard-lock real hardware and are treated as NOP.
            Some(self)
        } else if op == 0xF3 {
            Some(Cpu { ime: false, ime_pending: false, ..self })
        } else if op == 0xFB {
            Some(if !self.ime { Cpu { ime_pending: true, ..self } } else { self })
        } else if op == 0x03 {
            Some(self.with_bc(inc16(self.bc_spec())))
        } else if op == 0x13 {
            Some(self.with_de(inc16(self.de_spec())))
        } else if op == 0x23 {
            Some(self.with_hl(inc16(self.hl_spec())))
        } else if op == 0x33 {
            Some(Cpu { sp: inc16(self.sp), ..self })
        } else if op == 0x0B {
            Some(self.with_bc(dec16(self.bc_spec())))
        } else if op == 0x1B {
            Some(self.with_de(dec16(self.de_spec())))
        } else if op == 0x2B {
            Some(self.with_hl(dec16(self.hl_spec())))
        } else if op == 0x3B {
            Some(Cpu { sp: dec16(self.sp), ..self })
        } else if op == 0x09 {
            Some(self.hl_added(self.bc_spec()))
        } else if op == 0x19 {
            Some(self.hl_added(self.de_spec()))
        } else if op == 0x29 {
            Some(self.hl_added(self.hl_spec()))
        } else if op == 0x39 {
            Some(self.hl_added(self.sp))
        } else if op <= 0x3F && src == 4 && dst != 6 {
            // INC r8
            let v = self.r8(dst);
            Some(Cpu { f: self.inc_flags(v), ..self }.with_r8(dst, add8(v, 1)))
        } else if op <= 0x3F && src == 5 && dst != 6 {
            // DEC r8
            let v = self.r8(dst);
            Some(Cpu { f: self.dec_flags(v), ..self }.with_r8(dst, sub8(v, 1)))
        } else if op == 0x07 || op == 0x0F || op == 0x17 || op == 0x1F {
            // Accumulator rotates (Z always cleared)
            let sel = (op / 8 % 4) as u8;
            Some(Cpu { a: self.shift_result(sel, self.a), f: self.shifted_flags(sel, self.a) & !FZ, ..self })
        } else if op == 0x27 {
            Some(self.daa_result())
        } else if op == 0x2F {
            Some(Cpu { a: !self.a, f: self.f | FN | FH, ..self })
        } else if op == 0x37 {
            Some(Cpu { f: (self.f & FZ) | FC, ..self })
        } else if op == 0x3F {
            Some(Cpu { f: (self.f & (FZ | FC)) ^ FC, ..self })
        } else if 0x40 <= op <= 0x7F && op != 0x76 && src != 6 && dst != 6 {
            // LD r8, r8
            Some(self.with_r8(dst, self.r8(src)))
        } else if 0x80 <= op <= 0xBF && src != 6 {
            // ALU A, r8
            Some(self.alu(dst, self.r8(src)))
        } else if op == 0xE9 {
            Some(Cpu { pc: self.hl_spec(), ..self })
        } else if op == 0xF9 {
            Some(Cpu { sp: self.hl_spec(), ..self })
        } else {
            None
        }
    }

    /// The effect of opcode `op` (0x00..=0x3F) on CPU and memory, reading
    /// operands from bus `b`: the new CPU state and the stores made, in
    /// order. `None` when an operand or the target lies outside steady
    /// memory (or for stores outside plain RAM).
    pub open spec fn effect_low(self, op: u8, b: Bus) -> Option<(Cpu, Seq<(u16, u8)>)> {
        let dst = (op / 8 % 8) as u8;
        let src = (op % 8) as u8;
        let hl = self.hl_spec();
        let none = Seq::<(u16, u8)>::empty();
        let imm = self.imm8(b);
        let word = self.imm16(b);
        if self.reg_effect(op) is Some {
            Some((self.reg_effect(op).unwrap(), none))
        } else if op == 0x10 {
            Some((self.skip(1), none))
        } else if op == 0x01 || op == 0x11 || op == 0x21 || op == 0x31 {
            if !self.imm16_ok() {
                None
            } else if op == 0x01 {
                Some((self.skip(2).with_bc(word), none))
            } else if op == 0x11 {
                Some((self.skip(2).with_de(word), none))
            } else if op == 0x21 {
                Some((self.skip(2).with_hl(word), none))
            } else {
                Some((Cpu { sp: word, ..self.skip(2) }, none))
            }
        } else if op == 0x08 {
            if self.imm16_ok() && plain_ram(word) && plain_ram(inc16(word)) {
                Some((self.skip(2), seq![(word, lo_byte(self.sp)), (inc16(word), hi_byte(self.sp))]))
            } else {
                None
            }
        } else if op == 0x02 || op == 0x12 {
            let addr = if op == 0x02 { self.bc_spec() } else { self.de_spec() };
            if plain_ram(addr) { Some((self, seq![(addr, self.a)])) } else { None }
        } else if op == 0x22 || op == 0x32 {
            if plain_ram(hl) {
                Some((self.with_hl(if op == 0x22 { inc16(hl) } else { dec16(hl) }), seq![(hl, self.a)]))
            } else {
                None
            }
        } else if op == 0x0A || op == 0x1A {
            let addr = if op == 0x0A { self.bc_spec() } else { self.de_spec() };
            if steady(addr) { Some((Cpu { a: b.read_spec(addr), ..self }, none)) } else { None }
        } else if op == 0x2A || op == 0x3A {
            if steady(hl) {
                Some((Cpu { a: b.read_spec(hl), ..self }.with_hl(if op == 0x2A { inc16(hl) } else { dec16(hl) }), none))
            } else {
                None
            }
        } else if op == 0x34 || op == 0x35 {
            let v = b.read_spec(hl);
            if !plain_ram(hl) {
                None
            } else if op == 0x34 {
                Some((Cpu { f: self.inc_flags(v), ..self }, seq![(hl, add8(v, 1))]))
            } else {
                Some((Cpu { f: self.dec_flags(v), ..self }, seq![(hl, sub8(v, 1))]))
            }
        } else if op == 0x36 {
            if steady(self.pc) && plain_ram(hl) { Some((self.skip(1), seq![(hl, imm)])) } else { None }
        } else if src == 6 {
            // LD r8, d8
            if steady(self.pc) { Some((self.skip(1).with_r8(dst, imm), none)) } else { None }
        } else if op == 0x18 {
            if steady(self.pc) { Some((Cpu { pc: add16(inc16(self.pc), sext(imm)), ..self }, none)) } else { None }
        } else if op == 0x20 || op == 0x28 || op == 0x30 || op == 0x38 {
            if !steady(self.pc) {
                None
            } else if self.cond_spec(dst % 4) {
                Some((Cpu { pc: add16(inc16(self.pc), sext(imm)), ..self }, none))
            } else {
                Some((self.skip(1), none))
            }
        } else {
            None
        }
    }

    /// The effect of opcode `op` (0x40..=0x7F: register loads and HALT).
    pub open spec fn effect_load(self, op: u8, b: Bus) -> Option<(Cpu, Seq<(u16, u8)>)> {
        let dst = (op / 8 % 8) as u8;
        let src = (op % 8) as u8;
        let hl = self.hl_spec();
        let none = Seq::<(u16, u8)>::empty();
        if self.reg_effect(op) is Some {
            Some((self.reg_effect(op).unwrap(), none))
        } else if op == 0x76 {
            if !self.ime && b.ie & b.iff & 0x1F != 0 {
                // HALT bug: the next opcode byte is read twice.
                Some((Cpu { halt_bug: true, ..self }, none))
            } else {
                Some((Cpu { halted: true, ..self }, none))
            }
        } else if src == 6 {
            if steady(hl) { Some((self.with_r8(dst, b.read_spec(hl)), none)) } else { None }
        } else {
            if plain_ram(hl) { Some((self, seq![(hl, self.r8(src))])) } else { None }
        }
    }

    /// The effect of opcode `op` (0x80..=0xBF: ALU on A).
    pub open spec fn effect_alu(self, op: u8, b: Bus) -> Option<(Cpu, Seq<(u16, u8)>)> {
        let hl = self.hl_spec();
        if self.reg_effect(op) is Some {
            Some((self.reg_effect(op).unwrap(), Seq::empty()))
        } else if steady(hl) {
            Some((self.alu((op / 8 % 8) as u8, b.read_spec(hl)), Seq::empty()))
        } else {
            None
        }
    }

    /// The effect of the returns, jumps, calls, restarts, pushes and pops
    /// among opcodes 0xC0..=0xFF.
    pub open spec fn effect_flow(self, op: u8, b: Bus) -> Option<(Cpu, Seq<(u16, u8)>)> {
        let dst = (op / 8 % 8) as u8;
        let none = Seq::<(u16, u8)>::empty();
        let word = self.imm16(b);
        let ret = Cpu { pc: self.popped(b), sp: inc16(inc16(self.sp)), ..self };
        let after = self.skip(2);
        let call = Cpu { pc: word, sp: dec16(dec16(self.sp)), ..after };
        let pushed = Cpu { sp: dec16(dec16(self.sp)), ..self };
        let pop = Cpu { sp: inc16(inc16(self.sp)), ..self };
        if op == 0xC9 || op == 0xD9 {
            if !self.pop_ok() {
                None
            } else if op == 0xC9 {
                Some((ret, none))
            } else {
                Some((Cpu { ime: true, ..ret }, none))
            }
        } else if op == 0xC0 || op == 0xC8 || op == 0xD0 || op == 0xD8 {
            if !self.cond_spec(dst % 4) {
                Some((self, none))
            } else if self.pop_ok() {
                Some((ret, none))
            } else {
                None
            }
        } else if op == 0xC3 {
            if self.imm16_ok() { Some((Cpu { pc: word, ..self }, none)) } else { None }
        } else if op == 0xC2 || op == 0xCA || op == 0xD2 || op == 0xDA {
            if !self.imm16_ok() {
                None
            } else if self.cond_spec(dst % 4) {
                Some((Cpu { pc: word, ..self }, none))
            } else {
                Some((after, none))
            }
        } else if op == 0xCD {
            if self.imm16_ok() && self.push_ok() { Some((call, self.push_writes(after.pc))) } else { None }
        } else if op == 0xC4 || op == 0xCC || op == 0xD4 || op == 0xDC {
            if !self.imm16_ok() {
                None
            } else if !self.cond_spec(dst % 4) {
                Some((after, none))
            } else if self.push_ok() {
                Some((call, self.push_writes(after.pc)))
            } else {
                None
            }
        } else if op % 8 == 7 {
            // RST
            if self.push_ok() {
                Some((Cpu { pc: (op & 0x38) as u16, ..pushed }, self.push_writes(self.pc)))
            } else {
                None
            }
        } else if op == 0xC5 || op == 0xD5 || op == 0xE5 || op == 0xF5 {
            let v = if op == 0xC5 {
                self.bc_spec()
            } else if op == 0xD5 {
                self.de_spec()
            } else if op == 0xE5 {
                self.hl_spec()
            } else {
                self.af_spec()
            };
            if self.push_ok() { Some((pushed, self.push_writes(v))) } else { None }
        } else if op == 0xC1 || op == 0xD1 || op == 0xE1 || op == 0xF1 {
            let v = self.popped(b);
            if !self.pop_ok() {
                None
            } else if op == 0xC1 {
                Some((pop.with_bc(v), none))
            } else if op == 0xD1 {
                Some((pop.with_de(v), none))
            } else if op == 0xE1 {
                Some((pop.with_hl(v), none))
            } else {
                Some((pop.with_af(v), none))
            }
        } else {
            None
        }
    }

    /// The effect of the other opcodes 0xC0..=0xFF: immediate ALU, high-page
    /// and absolute loads, SP arithmetic, and the CB prefix.
    pub open spec fn effect_high(self, op: u8, b: Bus) -> Option<(Cpu, Seq<(u16, u8)>)> {
        let dst = (op / 8 % 8) as u8;
        let none = Seq::<(u16, u8)>::empty();
        let imm = self.imm8(b);
        let word = self.imm16(b);
        let page = (0xFF00 + imm) as u16;
        let cpage = (0xFF00 + self.c) as u16;
        if self.reg_effect(op) is Some {
            Some((self.reg_effect(op).unwrap(), none))
        } else if self.effect_flow(op, b) is Some {
            self.effect_flow(op, b)
        } else if op % 8 == 6 {
            // ALU A, d8
            if steady(self.pc) { Some((self.skip(1).alu(dst, imm), none)) } else { None }
        } else if op == 0xE0 {
            if steady(self.pc) && plain_ram(page) { Some((self.skip(1), seq![(page, self.a)])) } else { None }
        } else if op == 0xF0 {
            if steady(self.pc) && steady(page) { Some((Cpu { a: b.read_spec(page), ..self.skip(1) }, none)) } else { None }
        } else if op == 0xE2 {
            if plain_ram(cpage) { Some((self, seq![(cpage, self.a)])) } else { None }
        } else if op == 0xF2 {
            if steady(cpage) { Some((Cpu { a: b.read_spec(cpage), ..self }, none)) } else { None }
        } else if op == 0xEA {
            if self.imm16_ok() && plain_ram(word) { Some((self.skip(2), seq![(word, self.a)])) } else { None }
        } else if op == 0xFA {
            if self.imm16_ok() && steady(word) { Some((Cpu { a: b.read_spec(word), ..self.skip(2) }, none)) } else { None }
        } else if op == 0xF8 {
            if steady(self.pc) {
                Some((Cpu { f: self.sp_offset_flags(imm), ..self.skip(1) }.with_hl(add16(self.sp, sext(imm))), none))
            } else {
                None
            }
        } else if op == 0xE8 {
            if steady(self.pc) {
                Some((Cpu { sp: add16(self.sp, sext(imm)), f: self.sp_offset_flags(imm), ..self.skip(1) }, none))
            } else {
                None
            }
        } else if op == 0xCB {
            if steady(self.pc) { self.skip(1).effect_cb(imm, b) } else { None }
        } else {
            None
        }
    }

    /// The effect of CB-prefixed opcode `op`, its operand read from bus `b`.
    pub open spec fn effect_cb(self, op: u8, b: Bus) -> Option<(Cpu, Seq<(u16, u8)>)> {
        let hl = self.hl_spec();
        let sel = (op / 8 % 8) as u8;
        let v = b.read_spec(hl);
        if self.cb_effect(op) is Some {
            Some((self.cb_effect(op).unwrap(), Seq::empty()))
        } else if op / 64 == 1 {
            if steady(hl) {
                Some((Cpu { f: (self.f & FC) | FH | (if v & (1u8 << sel) == 0 { FZ } else { 0 }), ..self }, Seq::empty()))
            } else {
                None
            }
        } else if !plain_ram(hl) {
            None
        } else if op / 64 == 0 {
            Some((Cpu { f: self.shifted_flags(sel, v), ..self }, seq![(hl, self.shift_result(sel, v))]))
        } else if op / 64 == 2 {
            Some((self, seq![(hl, v & !(1u8 << sel))]))
        } else {
            Some((self, seq![(hl, v | (1u8 << sel))]))
        }
    }

    /// The effect of executing opcode `op` with operands read from bus `b`:
    /// the CPU state after it and the stores it makes, in order; `None`
    /// where the instruction reads VRAM or I/O registers, or stores outside
    /// plain RAM.
    pub open spec fn effect(self, op: u8, b: Bus) -> Option<(Cpu, Seq<(u16, u8)>)> {
        if op <= 0x3F {
            self.effect_low(op, b)
        } else if op <= 0x7F {
            self.effect_load(op, b)
        } else if op <= 0xBF {
            self.effect_alu(op, b)
        } else {
            self.effect_high(op, b)
        }
    }

    /// The CPU state after opcode `op` when its last bus access is a read:
    /// loads into registers, ALU operations on (HL) and BIT tests of (HL),
    /// with the value read taken from `after`, the bus once the instruction
    /// is done (immediate operands are read from bus `b`).
    pub open spec fn read_effect(self, op: u8, b: Bus, after: Bus) -> Option<Cpu> {
        let hl = self.hl_spec();
        let dst = (op / 8 % 8) as u8;
        let cb = b.read_spec(self.pc);
        if op == 0x0A {
            Some(Cpu { a: after.read_spec(self.bc_spec()), ..self })
        } else if op == 0x1A {
            Some(Cpu { a: after.read_spec(self.de_spec()), ..self })
        } else if op == 0x2A || op == 0x3A {
            Some(Cpu { a: after.read_spec(hl), ..self }.with_hl(if op == 0x2A { inc16(hl) } else { dec16(hl) }))
        } else if 0x40 <= op <= 0x7F && op % 8 == 6 && op != 0x76 {
            Some(self.with_r8(dst, after.read_spec(hl)))
        } else if 0x80 <= op <= 0xBF && op % 8 == 6 {
            Some(self.alu(dst, after.read_spec(hl)))
        } else if op == 0xF0 {
            if steady(self.pc) { Some(Cpu { a: after.read_spec((0xFF00 + self.imm8(b)) as u16), ..self.skip(1) }) } else { None }
        } else if op == 0xF2 {
            Some(Cpu { a: after.read_spec((0xFF00 + self.c) as u16), ..self })
        } else if op == 0xFA {
            if self.imm16_ok() { Some(Cpu { a: after.read_spec(self.imm16(b)), ..self.skip(2) }) } else { None }
        } else if op == 0xCB && steady(self.pc) && cb % 8 == 6 && cb / 64 == 1 {
            let v = after.read_spec(hl);
            Some(Cpu { f: (self.f & FC) | FH | (if v & (1u8 << (cb / 8 % 8) as u8) == 0 { FZ } else { 0 }), ..self.skip(1) })
        } else {
            None
        }
    }

    /// IME and the pending-EI flag after opcode `op`: DI clears both, EI
    /// schedules IME for after the next instruction, RETI sets IME, and no
    /// other opcode touches them.
    pub open spec fn ime_after(self, op: u8) -> (bool, bool) {
        if op == 0xF3 {
            (false, false)
        } else if op == 0xFB {
            (self.ime, self.ime_pending || !self.ime)
        } else if op == 0xD9 {
            (true, self.ime_pending)
        } else {
            (self.ime, self.ime_pending)
        }
    }

    /// IME and the pending-EI flag once a step that runs opcode `op` ends: an
    /// EI executed before takes effect unless `op` cancelled it.
    pub open spec fn ime_settled(self, op: u8) -> (bool, bool) {
        let (i, p) = self.ime_after(op);
        if self.ime_pending && p { (true, false) } else { (i, p) }
    }

    /// The step fetches and runs an instruction (not idling in HALT, not
    /// dispatching an interrupt), wherever the opcode lies.
    pub open spec fn starts_instruction(self, b: Bus) -> bool {
        let pending = b.ie & b.iff & 0x1F;
        &&& !self.halted || pending != 0
        &&& !(self.ime && pending != 0)
    }

    /// For opcodes that make a single store as their last bus access, the
    /// address, the value stored and the CPU state after: LD (BC),A,
    /// LD (DE),A, LD (HL+),A, LD (HL-),A, LD (HL),d8, LD (HL),r, LDH (a8),A,
    /// LD (C),A and LD (a16),A (immediates read from bus `b`).
    pub open spec fn store(self, op: u8, b: Bus) -> Option<(u16, u8, Cpu)> {
        let hl = self.hl_spec();
        if op == 0x02 {
            Some((self.bc_spec(), self.a, self))
        } else if op == 0x12 {
            Some((self.de_spec(), self.a, self))
        } else if op == 0x22 || op == 0x32 {
            Some((hl, self.a, self.with_hl(if op == 0x22 { inc16(hl) } else { dec16(hl) })))
        } else if op == 0x36 {
            if steady(self.pc) { Some((hl, self.imm8(b), self.skip(1))) } else { None }
        } else if 0x70 <= op <= 0x77 && op != 0x76 {
            Some((hl, self.r8((op % 8) as u8), self))
        } else if op == 0xE0 {
            if steady(self.pc) { Some(((0xFF00 + self.imm8(b)) as u16, self.a, self.skip(1))) } else { None }
        } else if op == 0xE2 {
            Some(((0xFF00 + self.c) as u16, self.a, self))
        } else if op == 0xEA {
            if self.imm16_ok() { Some((self.imm16(b), self.a, self.skip(2))) } else { None }
        } else {
            None
        }
    }

    /// M-cycles that opcode `op` takes after its fetch in state `self`: one
    /// per memory access and per internal cycle, conditional branches only
    /// when taken (for 0xCB, the operand is read from bus `b`).
    pub open spec fn exec_mcycles(self, op: u8, b: Bus) -> int {
        let dst = (op / 8 % 8) as u8;
        let src = (op % 8) as u8;
        if op <= 0x3F {
            self.low_mcycles(op)
        } else if op <= 0x7F {
            if op == 0x76 { 0 } else { (if src == 6 { 1int } else { 0 }) + (if dst == 6 { 1int } else { 0 }) }
        } else if op <= 0xBF {
            if src == 6 { 1 } else { 0 }
        } else {
            self.high_mcycles(op, b)
        }
    }

    /// M-cycles after the fetch of opcodes 0x00..=0x3F.
    pub open spec fn low_mcycles(self, op: u8) -> int {
        let dst = (op / 8 % 8) as u8;
        let col = op % 8;
        if col == 0 {
            // NOP, LD (a16),SP, STOP, JR, JR cc
            if op == 0x00 { 0 } else if op == 0x08 { 4 } else if op == 0x10 { 1 } else if op == 0x18 { 2 }
            else if self.cond_spec(dst % 4) { 2 } else { 1 }
        } else if col == 1 {
            // LD rr,d16 / ADD HL,rr
            if op % 16 == 1 { 2 } else { 1 }
        } else if col == 2 || col == 3 {
            // loads through (rr), INC/DEC rr
            1
        } else if col == 4 || col == 5 {
            if dst == 6 { 2 } else { 0 }
        } else if col == 6 {
            if dst == 6 { 2 } else { 1 }
        } else {
            0
        }
    }

    /// M-cycles after the fetch of opcodes 0xC0..=0xFF.
    pub open spec fn high_mcycles(self, op: u8, b: Bus) -> int {
        let taken = self.cond_spec((op / 8 % 8) as u8 % 4);
        let col = op % 8;
        if col == 0 {
            // RET cc, LDH (a8),A, ADD SP,e, LDH A,(a8), LD HL,SP+e
            if op <= 0xD8 { if taken { 4 } else { 1 } } else if op == 0xE8 { 3 } else { 2 }
        } else if col == 1 {
            // POP, RET, RETI, JP HL, LD SP,HL
            if op % 16 == 1 { 2 } else if op <= 0xD9 { 3 } else if op == 0xE9 { 0 } else { 1 }
        } else if col == 2 {
            // JP cc, LD (C),A, LD (a16),A, LD A,(C), LD A,(a16)
            if op <= 0xDA { if taken { 3 } else { 2 } } else if op % 16 == 2 { 1 } else { 3 }
        } else if col == 3 {
            // JP a16, CB prefix, DI, EI, unused
            if op == 0xC3 { 3 } else if op == 0xCB { 1 + cb_mcycles(b.read_spec(self.pc)) } else { 0 }
        } else if col == 4 {
            // CALL cc, unused
            if op <= 0xDC { if taken { 5 } else { 2 } } else { 0 }
        } else if col == 5 {
            // PUSH, CALL a16, unused
            if op % 16 == 5 { 3 } else if op == 0xCD { 5 } else { 0 }
        } else if col == 6 {
            1
        } else {
            3
        }
    }

    /// The effect of CB-prefixed opcode `op` on a register operand
    /// (`None` when the operand is (HL)).
    pub open spec fn cb_effect(self, op: u8) -> Option<Cpu> {
        let idx = (op % 8) as u8;
        let sel = (op / 8 % 8) as u8;
        let v = self.r8(idx);
        if idx == 6 {
            None
        } else if op / 64 == 0 {
            Some(Cpu { f: self.shifted_flags(sel, v), ..self }.with_r8(idx, self.shift_result(sel, v)))
        } else if op / 64 == 1 {
            // BIT
            Some(Cpu { f: (self.f & FC) | FH | (if v & (1u8 << sel) == 0 { FZ } else { 0 }), ..self })
        } else if op / 64 == 2 {
            // RES
            Some(self.with_r8(idx, v & !(1u8 << sel)))
        } else {
            // SET
            Some(self.with_r8(idx, v | (1u8 << sel)))
        }
    }

    /// Branch condition `idx` (NZ Z NC C).
    pub open spec fn cond_spec(self, idx: u8) -> bool {
        if idx == 0 {
            !self.flag_spec(FZ)
        } else if idx == 1 {
            self.flag_spec(FZ)
        } else if idx == 2 {
            !self.flag_spec(FC)
        } else {
            self.flag_spec(FC)
        }
    }

    /// Whether a step runs an instruction (rather than idling in HALT or
    /// dispatching an interrupt), fetching its opcode from steady memory.
    pub open spec fn runs_instruction(self, b: Bus) -> bool {
        let pending = b.ie & b.iff & 0x1F;
        &&& !self.halted || pending != 0
        &&& !(self.ime && pending != 0)
        &&& steady(self.pc)
    }

    /// The opcode at PC and the state from which it executes (PC past the
    /// opcode unless the HALT bug holds it back; out of HALT).
    pub open spec fn fetched(self) -> Cpu {
        Cpu { pc: if self.halt_bug { self.pc } else { inc16(self.pc) }, halt_bug: false, halted: false, ..self }
    }

    /// The effect of one step that runs an instruction other than HALT.
    pub open spec fn instruction_effect(self, b: Bus) -> Option<(Cpu, Seq<(u16, u8)>)> {
        let op = b.read_spec(self.pc);
        if op == 0x76 { None } else { self.fetched().effect(op, b) }
    }

    /// An EI executed just before takes effect once the next instruction ends.
    pub open spec fn after_ei(self, c: Cpu) -> Cpu {
        if self.ime_pending && c.ime_pending { Cpu { ime: true, ime_pending: false, ..c } } else { c }
    }

    pub fn new(cgb: bool) -> (cpu: Cpu)
        ensures
            cpu.flags_clean(),
            cpu.sp == 0xFFFE && cpu.pc == 0x0100,
            !cpu.ime && !cpu.ime_pending && !cpu.halted && !cpu.halt_bug,
            cgb ==> cpu.a == 0x11 && cpu.f == 0x80 && cpu.b == 0x00 && cpu.c == 0x00 && cpu.d == 0xFF
                && cpu.e == 0x56 && cpu.h == 0x00 && cpu.l == 0x0D,
            !cgb ==> cpu.a == 0x01 && cpu.f == 0xB0 && cpu.b == 0x00 && cpu.c == 0x13 && cpu.d == 0x00
                && cpu.e == 0xD8 && cpu.h == 0x01 && cpu.l == 0x4D,
    {
        // Post-boot-ROM register state. A=0x11 tells games they run on a CGB.
        let mut cpu = Cpu {
            a: if cgb { 0x11 } else { 0x01 },
            f: 0xB0,
            b: 0x00,
            c: 0x13,
            d: 0x00,
            e: 0xD8,
            h: 0x01,
            l: 0x4D,
            sp: 0xFFFE,
            pc: 0x0100,
            ime: false,
            ime_pending: false,
            halted: false,
            halt_bug: false,
        };
        if cgb {
            cpu.f = 0x80;
            cpu.b = 0x00;
            cpu.c = 0x00;
            cpu.d = 0xFF;
            cpu.e = 0x56;
            cpu.h = 0x00;
            cpu.l = 0x0D;
        }
        assert(0xB0u8 & 0x0F == 0 && 0x80u8 & 0x0F == 0) by (bit_vector);
        cpu
    }

    /// Memory read taking one M-cycle.
    fn read(&mut self, bus: &mut Bus, addr: u16) -> (v: u8)
        requires
            old(bus).wf(),
        ensures
            final(bus).clock@ - old(bus).clock@ == mcycle(*old(bus)),
            final(bus).double_speed == old(bus).double_speed,
            final(bus).cgb == old(bus).cgb && final(bus).key1_armed == old(bus).key1_armed,
            final(bus).wf(),
            old(bus).tick_result(*final(bus), 4),
            final(bus).cart.rom@ == old(bus).cart.rom@ && final(bus).cart.ram@.len() == old(bus).cart.ram@.len(),
            final(bus).ram_kept(*old(bus)),
            *final(self) == *old(self),
            final(bus).cart == old(bus).cart,
            v == final(bus).read_spec(addr),
            steady(addr) ==> v == old(bus).read_spec(addr),
    {
        bus.tick(4);
        bus.read(addr)
    }

    /// Memory write taking one M-cycle.
    fn write(&mut self, bus: &mut Bus, addr: u16, val: u8)
        requires
            old(bus).wf(),
        ensures
            final(bus).clock@ - old(bus).clock@ == mcycle(*old(bus)),
            final(bus).double_speed == old(bus).double_speed,
            store_lands(*old(bus), *final(bus), addr, val),
            final(bus).wf(),
            Bus::is_plain_memory(addr) ==> exists|mid: Bus| old(bus).tick_result(mid, 4) && #[trigger] mid.stored(*final(bus), addr, val),
            final(bus).cart.rom@ == old(bus).cart.rom@ && final(bus).cart.ram@.len() == old(bus).cart.ram@.len(),
            *final(self) == *old(self),
            plain_ram(addr) ==> final(bus).read_spec(addr) == val,
            plain_ram(addr) ==> forall|a: u16| plain_ram(a) && a != addr ==> #[trigger] final(bus).read_spec(a) == old(bus).read_spec(a),
            plain_ram(addr) ==> final(bus).cart == old(bus).cart,
    {
        bus.tick(4);
        let ghost mid = *bus;
        bus.write(addr, val);
        proof {
            if Bus::is_plain_memory(addr) {
                crate::bus::lemma_write_then_read(mid, *bus, addr, val);
            }
            if plain_ram(addr) {
                reveal(Bus::stored);
            }
            reveal(store_lands);
            if 0xFF00 <= addr <= 0xFF7F {
                assert(mid.io_written(*bus, addr, val));
            }
            if Bus::is_plain_memory(addr) {
                assert(mid.stored(*bus, addr, val));
            }
        }
    }

    fn fetch(&mut self, bus: &mut Bus) -> (v: u8)
        requires
            old(bus).wf(),
        ensures
            final(bus).clock@ - old(bus).clock@ == mcycle(*old(bus)),
            final(bus).double_speed == old(bus).double_speed,
            final(bus).cgb == old(bus).cgb && final(bus).key1_armed == old(bus).key1_armed,
            final(bus).wf(),
            old(bus).tick_result(*final(bus), 4),
            final(bus).cart.rom@ == old(bus).cart.rom@ && final(bus).cart.ram@.len() == old(bus).cart.ram@.len(),
            final(bus).ram_kept(*old(bus)),
            final(bus).cart == old(bus).cart,
            v == final(bus).read_spec(old(self).pc),
            steady(old(self).pc) ==> v == old(bus).read_spec(old(self).pc),
            *final(self) == (Cpu {
                pc: if old(self).halt_bug { old(self).pc } else { inc16(old(self).pc) },
                halt_bug: false,
                ..*old(self)
            }),
    {
        let v = self.read(bus, self.pc);
        if self.halt_bug {
            self.halt_bug = false;  // PC fails to increment once after the halt bug
        } else {
            self.pc = self.pc.wrapping_add(1);
        }
        v
    }

    fn fetch16(&mut self, bus: &mut Bus) -> (v: u16)
        requires
            old(bus).wf(),
        ensures
            final(bus).clock@ - old(bus).clock@ == 2 * mcycle(*old(bus)),
            final(bus).double_speed == old(bus).double_speed,
            final(bus).wf(),
            final(bus).cart.rom@ == old(bus).cart.rom@ && final(bus).cart.ram@.len() == old(bus).cart.ram@.len(),
            final(bus).ram_kept(*old(bus)),
            final(bus).cart == old(bus).cart,
            !old(self).halt_bug && steady(old(self).pc) && steady(inc16(old(self).pc)) ==> v == pair(
                old(bus).read_spec(inc16(old(self).pc)),
                old(bus).read_spec(old(self).pc),
            ),
            *final(self) == (Cpu {
                pc: if old(self).halt_bug { inc16(old(self).pc) } else { inc16(inc16(old(self).pc)) },
                halt_bug: false,
                ..*old(self)
            }),
    {
        let lo = self.fetch(bus);
        let hi = self.fetch(bus);
        join(hi, lo)
    }

    fn af(&self) -> (v: u16)
        ensures
            v == self.af_spec(),
    {
        join(self.a, self.f)
    }

    fn bc(&self) -> (v: u16)
        ensures
            v == self.bc_spec(),
    {
        join(self.b, self.c)
    }

    fn de(&self) -> (v: u16)
        ensures
            v == self.de_spec(),
    {
        join(self.d, self.e)
    }

    fn hl(&self) -> (v: u16)
        ensures
            v == self.hl_spec(),
    {
        join(self.h, self.l)
    }

    fn set_af(&mut self, v: u16)
        ensures
            *final(self) == old(self).with_af(v),
            final(self).flags_clean(),
    {
        let (hi, lo) = split(v);
        self.a = hi;
        self.f = lo & 0xF0;
        assert(lo & 0xF0 & 0x0F == 0) by (bit_vector);
    }

    fn set_bc(&mut self, v: u16)
        ensures
            *final(self) == old(self).with_bc(v),
    {
        let (hi, lo) = split(v);
        self.b = hi;
        self.c = lo;
    }

    fn set_de(&mut self, v: u16)
        ensures
            *final(self) == old(self).with_de(v),
    {
        let (hi, lo) = split(v);
        self.d = hi;
        self.e = lo;
    }

    fn set_hl(&mut self, v: u16)
        ensures
            *final(self) == old(self).with_hl(v),
    {
        let (hi, lo) = split(v);
        self.h = hi;
        self.l = lo;
    }

    fn flag(&self, m: u8) -> (b: bool)
        ensures
            b == self.flag_spec(m),
    {
        self.f & m != 0
    }

    fn set_flags(&mut self, z: bool, n: bool, h: bool, c: bool)
        ensures
            *final(self) == (Cpu { f: flags(z, n, h, c), ..*old(self) }),
            final(self).flags_clean(),
    {
        self.f = (if z { FZ } else { 0 }) | (if n { FN } else { 0 }) | (if h { FH } else { 0 }) | (if c { FC } else { 0 });
        proof { lemma_flags_clean(z, n, h, c); }
    }

    // r8 index: 0=B 1=C 2=D 3=E 4=H 5=L 6=(HL) 7=A
    fn r8_get(&mut self, bus: &mut Bus, idx: u8) -> (v: u8)
        requires
            old(bus).wf(),
        ensures
            final(bus).clock@ - old(bus).clock@ == (if idx == 6 { mcycle(*old(bus)) } else { 0 }),
            final(bus).double_speed == old(bus).double_speed,
            final(bus).wf(),
            final(bus).cart.rom@ == old(bus).cart.rom@ && final(bus).cart.ram@.len() == old(bus).cart.ram@.len(),
            *final(self) == *old(self),
            final(bus).ram_kept(*old(bus)),
            final(bus).cart == old(bus).cart,
            idx != 6 ==> v == old(self).r8(idx) && *final(bus) == *old(bus),
            idx == 6 && steady(old(self).hl_spec()) ==> v == old(bus).read_spec(old(self).hl_spec()),
            idx == 6 ==> v == final(bus).read_spec(old(self).hl_spec()),
    {
        match idx {
            0 => self.b,
            1 => self.c,
            2 => self.d,
            3 => self.e,
            4 => self.h,
            5 => self.l,
            6 => {
                let hl = self.hl();
                self.read(bus, hl)
            },
            _ => self.a,
        }
    }

    fn r8_set(&mut self, bus: &mut Bus, idx: u8, val: u8)
        requires
            old(bus).wf(),
        ensures
            final(bus).clock@ - old(bus).clock@ == (if idx == 6 { mcycle(*old(bus)) } else { 0 }),
            final(bus).double_speed == old(bus).double_speed,
            final(bus).wf(),
            final(bus).cart.rom@ == old(bus).cart.rom@ && final(bus).cart.ram@.len() == old(bus).cart.ram@.len(),
            idx == 6 ==> store_lands(*old(bus), *final(bus), old(self).hl_spec(), val),
            idx != 6 ==> *final(self) == old(self).with_r8(idx, val) && *final(bus) == *old(bus),
            idx == 6 ==> *final(self) == *old(self),
            idx == 6 && plain_ram(old(self).hl_spec()) ==> final(bus).read_spec(old(self).hl_spec()) == val
                && (forall|a: u16| plain_ram(a) && a != old(self).hl_spec() ==> #[trigger] final(bus).read_spec(a) == old(bus).read_spec(a)),
    {
        match idx {
            0 => self.b = val,
            1 => self.c = val,
            2 => self.d = val,
            3 => self.e = val,
            4 => self.h = val,
            5 => self.l = val,
            6 => {
                let hl = self.hl();
                self.write(bus, hl, val)
            },
            _ => self.a = val,
        }
    }

    // ---- ALU helpers ----

    fn alu_add(&mut self, v: u8, carry: bool)
        ensures
            *final(self) == old(self).added(v, carry),
            final(self).flags_clean(),
    {
        let c: u8 = if carry && self.flag(FC) { 1 } else { 0 };
        let a = self.a;
        let r = a.wrapping_add(v).wrapping_add(c);
        proof {
            crate::bits::lemma_and_le_u8(a, 0x0F);
            crate::bits::lemma_and_le_u8(v, 0x0F);
        }
        self.set_flags(
            r == 0,
            false,
            (a & 0x0F) + (v & 0x0F) + c > 0x0F,
            (a as u16) + (v as u16) + (c as u16) > 0xFF,
        );
        self.a = r;
    }

    fn alu_sub(&mut self, v: u8, carry: bool, store: bool)
        ensures
            *final(self) == old(self).subtracted(v, carry, store),
            final(self).flags_clean(),
    {
        let c: u8 = if carry && self.flag(FC) { 1 } else { 0 };
        let a = self.a;
        let r = a.wrapping_sub(v).wrapping_sub(c);
        proof {
            crate::bits::lemma_and_le_u8(a, 0x0F);
            crate::bits::lemma_and_le_u8(v, 0x0F);
        }
        self.set_flags(
            r == 0,
            true,
            (a & 0x0F) < (v & 0x0F) + c,
            (a as u16) < (v as u16) + (c as u16),
        );
        if store {
            self.a = r;
        }
    }

    fn alu_and(&mut self, v: u8)
        ensures
            *final(self) == old(self).anded(v),
            final(self).flags_clean(),
    {
        self.a = self.a & v;
        self.set_flags(self.a == 0, false, true, false);
    }

    fn alu_xor(&mut self, v: u8)
        ensures
            *final(self) == old(self).xored(v),
            final(self).flags_clean(),
    {
        self.a = self.a ^ v;
        self.set_flags(self.a == 0, false, false, false);
    }

    fn alu_or(&mut self, v: u8)
        ensures
            *final(self) == old(self).ored(v),
            final(self).flags_clean(),
    {
        self.a = self.a | v;
        self.set_flags(self.a == 0, false, false, false);
    }

    /// The ALU operation of group `sel` on A.
    fn alu_op(&mut self, sel: u8, v: u8)
        ensures
            *final(self) == old(self).alu(sel, v),
            final(self).flags_clean(),
    {
        match sel {
            0 => self.alu_add(v, false),
            1 => self.alu_add(v, true),
            2 => self.alu_sub(v, false, true),
            3 => self.alu_sub(v, true, true),
            4 => self.alu_and(v),
            5 => self.alu_xor(v),
            6 => self.alu_or(v),
            _ => self.alu_sub(v, false, false),  // CP
        }
    }

    fn alu_inc(&mut self, v: u8) -> (r: u8)
        ensures
            r == (if v == 255 { 0 } else { v + 1 }),
            *final(self) == (Cpu { f: old(self).inc_flags(v), ..*old(self) }),
            old(self).flags_clean() ==> final(self).flags_clean(),
    {
        let r = v.wrapping_add(1);
        let f = self.f;
        let zz: u8 = if r == 0 { FZ } else { 0 };
        let hh: u8 = if v & 0x0F == 0x0F { FH } else { 0 };
        let nf = (f & FC) | zz | hh;
        proof {
            crate::bits::lemma_high_nibble(f, FC);
            crate::bits::lemma_high_nibble(f & FC, zz);
            crate::bits::lemma_high_nibble((f & FC) | zz, hh);
        }
        self.f = nf;
        r
    }

    fn alu_dec(&mut self, v: u8) -> (r: u8)
        ensures
            r == (if v == 0 { 255 } else { v - 1 }),
            *final(self) == (Cpu { f: old(self).dec_flags(v), ..*old(self) }),
            old(self).flags_clean() ==> final(self).flags_clean(),
    {
        let r = v.wrapping_sub(1);
        let f = self.f;
        let zz: u8 = if r == 0 { FZ } else { 0 };
        let hh: u8 = if v & 0x0F == 0 { FH } else { 0 };
        let nf = (f & FC) | FN | zz | hh;
        proof {
            crate::bits::lemma_high_nibble(f, FC);
            crate::bits::lemma_high_nibble(f & FC, FN);
            crate::bits::lemma_high_nibble((f & FC) | FN, zz);
            crate::bits::lemma_high_nibble((f & FC) | FN | zz, hh);
        }
        self.f = nf;
        r
    }

    fn add_hl(&mut self, v: u16)
        ensures
            *final(self) == old(self).hl_added(v),
            old(self).flags_clean() ==> final(self).flags_clean(),
    {
        let hl = self.hl();
        let r = hl.wrapping_add(v);
        let f = self.f;
        proof {
            crate::bits::lemma_and_le_u16(hl, 0x0FFF);
            crate::bits::lemma_and_le_u16(v, 0x0FFF);
        }
        let hh: u8 = if (hl & 0x0FFF) + (v & 0x0FFF) > 0x0FFF { FH } else { 0 };
        let cc: u8 = if (hl as u32) + (v as u32) > 0xFFFF { FC } else { 0 };
        let nf = (f & FZ) | hh | cc;
        proof {
            crate::bits::lemma_high_nibble(f, FZ);
            crate::bits::lemma_high_nibble(f & FZ, hh);
            crate::bits::lemma_high_nibble((f & FZ) | hh, cc);
        }
        self.f = nf;
        self.set_hl(r);
    }

    /// SP + signed immediate; flags from the low byte and nibble.
    fn add_sp_e(&mut self, bus: &mut Bus) -> (r: u16)
        requires
            old(bus).wf(),
            !old(self).halt_bug,
        ensures
            final(bus).clock@ - old(bus).clock@ == mcycle(*old(bus)),
            final(bus).double_speed == old(bus).double_speed,
            final(bus).wf(),
            final(bus).cart.rom@ == old(bus).cart.rom@ && final(bus).cart.ram@.len() == old(bus).cart.ram@.len(),
            final(bus).ram_kept(*old(bus)),
            final(bus).cart == old(bus).cart,
            final(self).flags_clean(),
            final(self).ime == old(self).ime && final(self).ime_pending == old(self).ime_pending,
            steady(old(self).pc) ==> r == add16(old(self).sp, sext(old(self).imm8(*old(bus))))
                && *final(self) == (Cpu { pc: inc16(old(self).pc), f: old(self).sp_offset_flags(old(self).imm8(*old(bus))), ..*old(self) }),
    {
        let b = self.fetch(bus);
        let e: u16 = sign_extend(b);
        let sp = self.sp;
        proof {
            crate::bits::lemma_and_le_u16(sp, 0x0F);
            crate::bits::lemma_and_le_u16(e, 0x0F);
            crate::bits::lemma_and_le_u16(sp, 0xFF);
            crate::bits::lemma_and_le_u16(e, 0xFF);
        }
        self.set_flags(
            false,
            false,
            (sp & 0x0F) + (e & 0x0F) > 0x0F,
            (sp & 0xFF) + (e & 0xFF) > 0xFF,
        );
        sp.wrapping_add(e)
    }

    fn daa(&mut self)
        ensures
            *final(self) == old(self).daa_result(),
            old(self).flags_clean() ==> final(self).flags_clean(),
    {
        let n = self.flag(FN);
        let hf = self.flag(FH);
        let cf = self.flag(FC);
        let a0 = self.a;
        let carry = cf || (!n && a0 > 0x99);
        let a1: u8 = if !n && carry {
            wadd8(a0, 0x60)
        } else if n && cf {
            wsub8(a0, 0x60)
        } else {
            a0
        };
        let a2: u8 = if !n && (hf || (a1 & 0x0F) > 0x09) {
            wadd8(a1, 0x06)
        } else if n && hf {
            wsub8(a1, 0x06)
        } else {
            a1
        };
        let f = self.f;
        let zz: u8 = if a2 == 0 { FZ } else { 0 };
        let cc: u8 = if carry { FC } else { 0 };
        let keep: u8 = FN | FC;
        assert(keep == 0x50) by (bit_vector) requires keep == 0x40u8 | 0x10u8;
        let nf = (f & keep) | zz | cc;
        proof {
            crate::bits::lemma_high_nibble(f, keep);
            crate::bits::lemma_high_nibble(f & keep, zz);
            crate::bits::lemma_high_nibble((f & keep) | zz, cc);
        }
        self.f = nf;
        self.a = a2;
    }

    // ---- rotates/shifts (CB and A-register variants) ----

    /// Shift/rotate `sel` of v, setting the flags.
    fn shift_op(&mut self, sel: u8, v: u8) -> (r: u8)
        ensures
            r == old(self).shift_result(sel, v),
            *final(self) == (Cpu { f: old(self).shifted_flags(sel, v), ..*old(self) }),
            final(self).flags_clean(),
    {
        let cin: u8 = if self.flag(FC) { 1 } else { 0 };
        let r: u8 = match sel {
            0 => (v << 1u8) | (v >> 7u8),  // RLC
            1 => (v >> 1u8) | (v << 7u8),  // RRC
            2 => (v << 1u8) | cin,  // RL
            3 => (v >> 1u8) | (cin << 7u8),  // RR
            4 => v << 1u8,  // SLA
            5 => (v >> 1u8) | (v & 0x80),  // SRA
            6 => (v << 4u8) | (v >> 4u8),  // SWAP
            _ => v >> 1u8,  // SRL
        };
        let carry = match sel {
            6 => false,
            0 | 2 | 4 => v & 0x80 != 0,
            _ => v & 1 != 0,
        };
        self.set_flags(r == 0, false, false, carry);
        r
    }

    fn cond(&self, idx: u8) -> (b: bool)
        ensures
            b == self.cond_spec(idx),
    {
        match idx {
            0 => !self.flag(FZ),
            1 => self.flag(FZ),
            2 => !self.flag(FC),
            _ => self.flag(FC),
        }
    }

    /// What one `step` does: `self` on bus `b0` becomes `c1` on bus `b1`.
    pub open spec fn step_result(self, b0: Bus, c1: Cpu, b1: Bus) -> bool {
        &&& 2 <= b1.clock@ - b0.clock@ <= 24
        &&& b1.wf()
        &&& b1.cart.rom@ == b0.cart.rom@ && b1.cart.ram@.len() == b0.cart.ram@.len()
        &&& self.flags_clean() ==> c1.flags_clean()
        &&& self.halted && b0.ie & b0.iff & 0x1F == 0 ==> c1 == self
            && b0.tick_result(b1, 4)
        &&& self.ime && b0.ie & b0.iff & 0x1F != 0 ==> c1 == (Cpu {
            pc: (0x40 + 8 * lowest_interrupt(b0.ie & b0.iff & 0x1F)) as u16,
            sp: dec16(dec16(self.sp)),
            ime: false,
            ime_pending: false,
            halted: false,
            ..self
        })
        &&& self.ime && b0.ie & b0.iff & 0x1F != 0 && self.push_ok() ==> dispatch_bus(
            b0, b1, lowest_interrupt(b0.ie & b0.iff & 0x1F), self.sp, self.pc)
        &&& self.ime && b0.ie & b0.iff & 0x1F != 0 && self.push_ok() ==> stack_holds(b1, b0, self.push_writes(self.pc))
        &&& self.runs_instruction(b0) ==> (self.instruction_effect(b0) matches Some(r)
            ==> c1 == self.after_ei(r.0) && stack_holds(b1, b0, r.1))
        &&& self.runs_instruction(b0) && b0.read_spec(self.pc) == 0x76 ==> c1 == self.after_ei(
            if !self.ime && b1.ie & b1.iff & 0x1F != 0 {
                Cpu { halt_bug: true, ..self.fetched() }
            } else {
                Cpu { halted: true, ..self.fetched() }
            }) && stack_holds(b1, b0, Seq::empty())
        &&& self.runs_instruction(b0) ==> (self.fetched().read_effect(b0.read_spec(self.pc), b0, b1) matches Some(c)
            ==> c1 == self.after_ei(c) && stack_holds(b1, b0, Seq::empty()))
        &&& self.runs_instruction(b0) ==> (self.fetched().store(b0.read_spec(self.pc), b0) matches Some(w)
            ==> c1 == self.after_ei(w.2) && store_lands(b0, b1, w.0, w.1))
        &&& self.starts_instruction(b0) ==> exists|mid: Bus|
            b0.tick_result(mid, 4) && (c1.ime, c1.ime_pending)
                == self.ime_settled(#[trigger] mid.read_spec(self.pc))
        &&& self.halted && b0.ie & b0.iff & 0x1F == 0
            ==> b1.clock@ - b0.clock@ == mcycle(b0)
        &&& self.ime && b0.ie & b0.iff & 0x1F != 0
            ==> b1.clock@ - b0.clock@ == 5 * mcycle(b0)
        &&& self.runs_instruction(b0) && (b0.read_spec(self.pc) != 0xCB || steady(self.fetched().pc))
            ==> b1.clock@ - b0.clock@ == (1 + self.fetched().exec_mcycles(
                b0.read_spec(self.pc), b0)) * mcycle(b0)
    }

    /// Execute one instruction (or service an interrupt / idle in halt).
    pub fn step(&mut self, bus: &mut Bus)
        requires
            old(bus).wf(),
        ensures
            old(self).step_result(*old(bus), *final(self), *final(bus)),
    {
        // EI takes effect after the following instruction.
        let enable_ime_after = self.ime_pending;

        let pending = bus.ie & bus.iff & 0x1F;

        if self.halted {
            if pending != 0 {
                self.halted = false;
            } else {
                bus.tick(4);
                return;
            }
        }

        if self.ime && pending != 0 {
            proof { crate::bits::lemma_and_le_u8(bus.ie & bus.iff, 0x1F); }
            self.service_interrupt(bus, pending);
            return;
        }

        let ghost c0 = Cpu { halted: false, ..*old(self) };
        let op = self.fetch(bus);
        let ghost b1 = *bus;
        let ghost c1 = *self;
        self.execute(bus, op);
        proof {
            if steady(c1.pc) {
                lemma_steady_read(b1, *old(bus), c1.pc);
            }
            if op == 0x76 {
                lemma_ram_kept_stack(*bus, *old(bus));
            }
            if steady(old(self).pc) {
                lemma_store_same(c1, op, b1, *old(bus));
                if c1.store(op, b1) is Some {
                    let w = c1.store(op, b1).unwrap();
                    lemma_store_lands_rebase(b1, *old(bus), *bus, w.0, w.1);
                }
                lemma_read_effect_same(c1, op, b1, *old(bus), *bus);
                if c1.read_effect(op, b1, *bus) is Some {
                    lemma_stack_holds_rebase(*bus, b1, *old(bus), Seq::empty());
                }
            }
            if steady(old(self).pc) && op != 0x76 {
                lemma_effect_same(c1, op, b1, *old(bus));
                if c1.effect(op, b1) is Some {
                    lemma_stack_holds_rebase(*bus, b1, *old(bus), c1.effect(op, b1).unwrap().1);
                }
            }
        }

        if enable_ime_after && self.ime_pending {
            self.ime = true;
            self.ime_pending = false;
        }
    }

    /// Dispatch to the vector of the lowest pending interrupt, pushing PC.
    fn service_interrupt(&mut self, bus: &mut Bus, pending: u8)
        requires
            old(bus).wf(),
            pending != 0,
            pending <= 0x1F,
        ensures
            final(bus).clock@ - old(bus).clock@ == 5 * mcycle(*old(bus)),
            final(bus).double_speed == old(bus).double_speed,
            final(bus).wf(),
            old(self).push_ok() ==> dispatch_bus(*old(bus), *final(bus), lowest_interrupt(pending), old(self).sp, old(self).pc),
            final(bus).cart.rom@ == old(bus).cart.rom@ && final(bus).cart.ram@.len() == old(bus).cart.ram@.len(),
            *final(self) == (Cpu {
                pc: (0x40 + 8 * lowest_interrupt(pending)) as u16,
                sp: dec16(dec16(old(self).sp)),
                ime: false,
                ime_pending: false,
                ..*old(self)
            }),
            old(self).push_ok() ==> stack_holds(*final(bus), *old(bus), old(self).push_writes(old(self).pc)),
    {
        self.ime = false;
        self.ime_pending = false;
        let ghost b0 = *bus;
        bus.tick(8);  // two internal cycles
        let ghost t8 = *bus;
        let bit: u8 = if pending & 1 != 0 {
            0
        } else if pending & 2 != 0 {
            1
        } else if pending & 4 != 0 {
            2
        } else if pending & 8 != 0 {
            3
        } else {
            4
        };
        bus.iff = bus.iff & !(1u8 << bit);
        let ghost b1 = *bus;
        let pc = self.pc;
        self.push16(bus, pc);
        let ghost b2 = *bus;
        self.pc = 0x0040 + (bit as u16) * 8;
        bus.tick(4);
        proof {
            if old(self).push_ok() {
                lemma_stack_holds_rebase(b2, b1, *old(bus), old(self).push_writes(pc));
                lemma_stack_holds_kept(*bus, b2, *old(bus), old(self).push_writes(pc));
                assert(b1 == (Bus { iff: t8.iff & !(1u8 << lowest_interrupt(pending)), ..t8 }));
                assert(b0.tick_result(t8, 8) && two_stores(b1, b2, dec16(old(self).sp), hi_byte(pc),
                    dec16(dec16(old(self).sp)), lo_byte(pc)) && b2.tick_result(*bus, 4));
            }
        }
    }

    #[verifier::spinoff_prover]
    fn execute(&mut self, bus: &mut Bus, op: u8)
        requires
            old(bus).wf(),
            !old(self).halt_bug,
        ensures
            op != 0xCB || steady(old(self).pc) ==> final(bus).clock@ - old(bus).clock@ == old(self).exec_mcycles(op, *old(bus)) * mcycle(*old(bus)),
            0 <= final(bus).clock@ - old(bus).clock@ <= 5 * mcycle(*old(bus)),
            final(bus).double_speed == (if op == 0x10 && old(bus).cgb && old(bus).key1_armed { !old(bus).double_speed } else { old(bus).double_speed }),
            final(bus).wf(),
            (final(self).ime, final(self).ime_pending) == old(self).ime_after(op),
            final(bus).cart.rom@ == old(bus).cart.rom@ && final(bus).cart.ram@.len() == old(bus).cart.ram@.len(),
            old(self).read_effect(op, *old(bus), *final(bus)) matches Some(c) ==> *final(self) == c && stack_holds(*final(bus), *old(bus), Seq::empty()),
            old(self).store(op, *old(bus)) matches Some(w) ==> *final(self) == w.2 && store_lands(*old(bus), *final(bus), w.0, w.1),
            op == 0x76 ==> *final(bus) == *old(bus),
            old(self).flags_clean() ==> final(self).flags_clean(),
            old(self).effect(op, *old(bus)) matches Some(r) ==> *final(self) == r.0 && stack_holds(*final(bus), *old(bus), r.1),
    {
        proof { lemma_exec_mcycles_bound(*self, op, *bus); }
        if op <= 0x3F {
            self.execute_low(bus, op);
        } else if op <= 0x7F {
            self.execute_load(bus, op);
        } else if op <= 0xBF {
            self.execute_alu(bus, op);
        } else {
            self.execute_high(bus, op);
        }
    }

    /// Opcodes 0x00..=0x3F.
    #[verifier::spinoff_prover]
    fn execute_low(&mut self, bus: &mut Bus, op: u8)
        requires
            old(bus).wf(),
            !old(self).halt_bug,
            op <= 0x3F,
        ensures
            final(bus).clock@ - old(bus).clock@ == old(self).exec_mcycles(op, *old(bus)) * mcycle(*old(bus)),
            final(bus).double_speed == (if op == 0x10 && old(bus).cgb && old(bus).key1_armed { !old(bus).double_speed } else { old(bus).double_speed }),
            final(bus).wf(),
            (final(self).ime, final(self).ime_pending) == old(self).ime_after(op),
            final(bus).cart.rom@ == old(bus).cart.rom@ && final(bus).cart.ram@.len() == old(bus).cart.ram@.len(),
            old(self).read_effect(op, *old(bus), *final(bus)) matches Some(c) ==> *final(self) == c && stack_holds(*final(bus), *old(bus), Seq::empty()),
            old(self).store(op, *old(bus)) matches Some(w) ==> *final(self) == w.2 && store_lands(*old(bus), *final(bus), w.0, w.1),
            old(self).flags_clean() ==> final(self).flags_clean(),
            old(self).effect_low(op, *old(bus)) matches Some(r) ==> *final(self) == r.0 && stack_holds(*final(bus), *old(bus), r.1),
    {
        if op == 0x01 || op == 0x11 || op == 0x21 || op == 0x31 || op == 0x08 || op == 0x02 || op == 0x12 || op == 0x22 || op == 0x32 || op == 0x0A || op == 0x1A || op == 0x2A || op == 0x3A {
            self.execute_low_loads(bus, op);
        } else if op % 8 == 3 || op % 8 == 4 || op % 8 == 5 || op == 0x09 || op == 0x19 || op == 0x29 || op == 0x39 {
            self.execute_low_counts(bus, op);
        } else {
            self.execute_low_misc(bus, op);
        }
    }

    /// Opcodes 0x00..=0x3F that load or store through a pointer or an immediate word.
    #[verifier::rlimit(100)]
    #[verifier::spinoff_prover]
    fn execute_low_loads(&mut self, bus: &mut Bus, op: u8)
        requires
            old(bus).wf(),
            !old(self).halt_bug,
            op <= 0x3F,
            op == 0x01 || op == 0x11 || op == 0x21 || op == 0x31 || op == 0x08 || op == 0x02 || op == 0x12 || op == 0x22 || op == 0x32 || op == 0x0A || op == 0x1A || op == 0x2A || op == 0x3A,
        ensures
            final(bus).clock@ - old(bus).clock@ == old(self).exec_mcycles(op, *old(bus)) * mcycle(*old(bus)),
            final(bus).double_speed == old(bus).double_speed,
            final(bus).wf(),
            (final(self).ime, final(self).ime_pending) == old(self).ime_after(op),
            final(bus).cart.rom@ == old(bus).cart.rom@ && final(bus).cart.ram@.len() == old(bus).cart.ram@.len(),
            old(self).read_effect(op, *old(bus), *final(bus)) matches Some(c) ==> *final(self) == c && stack_holds(*final(bus), *old(bus), Seq::empty()),
            old(self).store(op, *old(bus)) matches Some(w) ==> *final(self) == w.2 && store_lands(*old(bus), *final(bus), w.0, w.1),
            old(self).flags_clean() ==> final(self).flags_clean(),
            old(self).effect_low(op, *old(bus)) matches Some(r) ==> *final(self) == r.0 && stack_holds(*final(bus), *old(bus), r.1),
    {
        match op {
            // 16-bit loads
            0x01 => {
                let v = self.fetch16(bus);
                self.set_bc(v);
            },
            0x11 => {
                let v = self.fetch16(bus);
                self.set_de(v);
            },
            0x21 => {
                let v = self.fetch16(bus);
                self.set_hl(v);
            },
            0x31 => {
                self.sp = self.fetch16(bus);
            },
            0x08 => {
                let addr = self.fetch16(bus);
                let ghost b1 = *bus;
                let (hi, lo) = split(self.sp);
                self.write(bus, addr, lo);
                let ghost b2 = *bus;
                let next = addr.wrapping_add(1);
                self.write(bus, next, hi);
                proof {
                    if plain_ram(addr) && plain_ram(next) {
                        lemma_one_store(b2, b1, *old(bus), addr, lo);
                        lemma_stack_holds_write(*bus, b2, *old(bus), seq![(addr, lo)], next, hi);
                        assert(seq![(addr, lo)].push((next, hi)) =~= seq![(addr, lo), (next, hi)]);
                    }
                }
            },
            // (rr) <-> A
            0x02 => {
                let a = self.a;
                let addr = self.bc();
                let ghost b0 = *bus;
                self.write(bus, addr, a);
                proof {
                    if plain_ram(addr) {
                        lemma_one_store(*bus, b0, b0, addr, a);
                    }
                }
            },
            0x12 => {
                let a = self.a;
                let addr = self.de();
                let ghost b0 = *bus;
                self.write(bus, addr, a);
                proof {
                    if plain_ram(addr) {
                        lemma_one_store(*bus, b0, b0, addr, a);
                    }
                }
            },
            0x22 => {
                let a = self.a;
                let hl = self.hl();
                let ghost b0 = *bus;
                self.write(bus, hl, a);
                proof {
                    if plain_ram(hl) {
                        lemma_one_store(*bus, b0, b0, hl, a);
                    }
                }
                self.set_hl(hl.wrapping_add(1));
            },
            0x32 => {
                let a = self.a;
                let hl = self.hl();
                let ghost b0 = *bus;
                self.write(bus, hl, a);
                proof {
                    if plain_ram(hl) {
                        lemma_one_store(*bus, b0, b0, hl, a);
                    }
                }
                self.set_hl(hl.wrapping_sub(1));
            },
            0x0A => {
                let addr = self.bc();
                self.a = self.read(bus, addr);
            },
            0x1A => {
                let addr = self.de();
                self.a = self.read(bus, addr);
            },
            0x2A => {
                let hl = self.hl();
                self.a = self.read(bus, hl);
                self.set_hl(hl.wrapping_add(1));
            },
            0x3A => {
                let hl = self.hl();
                self.a = self.read(bus, hl);
                self.set_hl(hl.wrapping_sub(1));
            },
            _ => {},
        }
        proof {
            if bus.ram_kept(*old(bus)) {
                lemma_ram_kept_stack(*bus, *old(bus));
            }
        }
    }

    /// Opcodes 0x00..=0x3F that count: INC/DEC of pairs and registers, ADD HL.
    #[verifier::spinoff_prover]
    fn execute_low_counts(&mut self, bus: &mut Bus, op: u8)
        requires
            old(bus).wf(),
            !old(self).halt_bug,
            op <= 0x3F,
            op % 8 == 3 || op % 8 == 4 || op % 8 == 5 || op == 0x09 || op == 0x19 || op == 0x29 || op == 0x39,
        ensures
            final(bus).clock@ - old(bus).clock@ == old(self).exec_mcycles(op, *old(bus)) * mcycle(*old(bus)),
            final(bus).double_speed == old(bus).double_speed,
            final(bus).wf(),
            (final(self).ime, final(self).ime_pending) == old(self).ime_after(op),
            final(bus).cart.rom@ == old(bus).cart.rom@ && final(bus).cart.ram@.len() == old(bus).cart.ram@.len(),
            old(self).flags_clean() ==> final(self).flags_clean(),
            old(self).effect_low(op, *old(bus)) matches Some(r) ==> *final(self) == r.0 && stack_holds(*final(bus), *old(bus), r.1),
    {
        if op % 8 == 4 || op % 8 == 5 {
            self.execute_low_incdec(bus, op);
        } else {
            self.execute_low_pairs(bus, op);
        }
    }

    /// INC/DEC rr and ADD HL,rr.
    #[verifier::rlimit(100)]
    #[verifier::spinoff_prover]
    fn execute_low_pairs(&mut self, bus: &mut Bus, op: u8)
        requires
            old(bus).wf(),
            !old(self).halt_bug,
            op <= 0x3F,
            op % 8 == 3 || op == 0x09 || op == 0x19 || op == 0x29 || op == 0x39,
        ensures
            final(bus).clock@ - old(bus).clock@ == old(self).exec_mcycles(op, *old(bus)) * mcycle(*old(bus)),
            final(bus).double_speed == old(bus).double_speed,
            final(bus).wf(),
            (final(self).ime, final(self).ime_pending) == old(self).ime_after(op),
            final(bus).cart.rom@ == old(bus).cart.rom@ && final(bus).cart.ram@.len() == old(bus).cart.ram@.len(),
            old(self).flags_clean() ==> final(self).flags_clean(),
            old(self).effect_low(op, *old(bus)) matches Some(r) ==> *final(self) == r.0 && stack_holds(*final(bus), *old(bus), r.1),
    {
        match op {
            // INC/DEC rr (internal cycle)
            0x03 => {
                let v = self.bc().wrapping_add(1);
                self.set_bc(v);
                bus.tick(4);
            },
            0x13 => {
                let v = self.de().wrapping_add(1);
                self.set_de(v);
                bus.tick(4);
            },
            0x23 => {
                let v = self.hl().wrapping_add(1);
                self.set_hl(v);
                bus.tick(4);
            },
            0x33 => {
                self.sp = self.sp.wrapping_add(1);
                bus.tick(4);
            },
            0x0B => {
                let v = self.bc().wrapping_sub(1);
                self.set_bc(v);
                bus.tick(4);
            },
            0x1B => {
                let v = self.de().wrapping_sub(1);
                self.set_de(v);
                bus.tick(4);
            },
            0x2B => {
                let v = self.hl().wrapping_sub(1);
                self.set_hl(v);
                bus.tick(4);
            },
            0x3B => {
                self.sp = self.sp.wrapping_sub(1);
                bus.tick(4);
            },
            // ADD HL,rr
            0x09 => {
                let v = self.bc();
                self.add_hl(v);
                bus.tick(4);
            },
            0x19 => {
                let v = self.de();
                self.add_hl(v);
                bus.tick(4);
            },
            0x29 => {
                let v = self.hl();
                self.add_hl(v);
                bus.tick(4);
            },
            0x39 => {
                let v = self.sp;
                self.add_hl(v);
                bus.tick(4);
            },
            _ => {},
        }
        proof {
            if bus.ram_kept(*old(bus)) {
                lemma_ram_kept_stack(*bus, *old(bus));
            }
        }
    }

    /// INC/DEC of an 8-bit register or (HL).
    #[verifier::rlimit(100)]
    #[verifier::spinoff_prover]
    fn execute_low_incdec(&mut self, bus: &mut Bus, op: u8)
        requires
            old(bus).wf(),
            !old(self).halt_bug,
            op <= 0x3F,
            op % 8 == 4 || op % 8 == 5,
        ensures
            final(bus).clock@ - old(bus).clock@ == old(self).exec_mcycles(op, *old(bus)) * mcycle(*old(bus)),
            final(bus).double_speed == old(bus).double_speed,
            final(bus).wf(),
            (final(self).ime, final(self).ime_pending) == old(self).ime_after(op),
            final(bus).cart.rom@ == old(bus).cart.rom@ && final(bus).cart.ram@.len() == old(bus).cart.ram@.len(),
            old(self).flags_clean() ==> final(self).flags_clean(),
            old(self).effect_low(op, *old(bus)) matches Some(r) ==> *final(self) == r.0 && stack_holds(*final(bus), *old(bus), r.1),
    {
        let idx = op_dst(op);
        let v = self.r8_get(bus, idx);
        let ghost b1 = *bus;
        let r = if op % 8 == 4 { self.alu_inc(v) } else { self.alu_dec(v) };
        self.r8_set(bus, idx, r);
        proof {
            if idx == 6 && plain_ram(old(self).hl_spec()) {
                lemma_one_store(*bus, b1, *old(bus), old(self).hl_spec(), r);
            }
        }
        proof {
            if bus.ram_kept(*old(bus)) {
                lemma_ram_kept_stack(*bus, *old(bus));
            }
        }
    }

    /// Opcodes 0x00..=0x3F other than loads and counters: NOP, STOP, LD r8,d8,
    /// accumulator rotates and flag operations, relative jumps.
    #[verifier::rlimit(100)]
    #[verifier::spinoff_prover]
    fn execute_low_misc(&mut self, bus: &mut Bus, op: u8)
        requires
            old(bus).wf(),
            !old(self).halt_bug,
            op <= 0x3F,
            !(op == 0x01 || op == 0x11 || op == 0x21 || op == 0x31 || op == 0x08 || op == 0x02 || op == 0x12 || op == 0x22 || op == 0x32 || op == 0x0A || op == 0x1A || op == 0x2A || op == 0x3A),
            !(op % 8 == 3 || op % 8 == 4 || op % 8 == 5 || op == 0x09 || op == 0x19 || op == 0x29 || op == 0x39),
        ensures
            final(bus).clock@ - old(bus).clock@ == old(self).exec_mcycles(op, *old(bus)) * mcycle(*old(bus)),
            final(bus).double_speed == (if op == 0x10 && old(bus).cgb && old(bus).key1_armed { !old(bus).double_speed } else { old(bus).double_speed }),
            final(bus).wf(),
            (final(self).ime, final(self).ime_pending) == old(self).ime_after(op),
            final(bus).cart.rom@ == old(bus).cart.rom@ && final(bus).cart.ram@.len() == old(bus).cart.ram@.len(),
            old(self).store(op, *old(bus)) matches Some(w) ==> *final(self) == w.2 && store_lands(*old(bus), *final(bus), w.0, w.1),
            old(self).flags_clean() ==> final(self).flags_clean(),
            old(self).effect_low(op, *old(bus)) matches Some(r) ==> *final(self) == r.0 && stack_holds(*final(bus), *old(bus), r.1),
    {
        match op {
            0x00 => {},  // NOP
            0x10 => {
                // STOP: on CGB, performs the speed switch if armed.
                self.fetch(bus);
                if bus.speed_switch_armed() {
                    bus.perform_speed_switch();
                }
            },
            // LD r8, d8
            0x06 | 0x0E | 0x16 | 0x1E | 0x26 | 0x2E | 0x36 | 0x3E => {
                let idx = op_dst(op);
                let v = self.fetch(bus);
                let ghost b1 = *bus;
                self.r8_set(bus, idx, v);
                proof {
                    if idx == 6 {
                        lemma_store_lands_rebase(b1, *old(bus), *bus, old(self).hl_spec(), v);
                    }
                    if idx == 6 && plain_ram(old(self).hl_spec()) {
                        lemma_one_store(*bus, b1, *old(bus), old(self).hl_spec(), v);
                    }
                }
            },
            // Accumulator rotates (flags: Z always cleared)
            0x07 | 0x0F | 0x17 | 0x1F => {
                let a = self.a;
                let r = self.shift_op(op_dst(op) % 4, a);
                self.a = r;
                let f = self.f;
                let nf = f & !FZ;
                proof { crate::bits::lemma_high_nibble(f, !FZ); }
                self.f = nf;
            },
            0x27 => self.daa(),
            0x2F => {
                self.a = !self.a;
                let f = self.f;
                let nf = f | FN | FH;
                proof {
                    crate::bits::lemma_high_nibble(f, FN);
                    crate::bits::lemma_high_nibble(f | FN, FH);
                }
                self.f = nf;
            },
            0x37 => {
                let f = self.f;
                let nf = (f & FZ) | FC;
                proof {
                    crate::bits::lemma_high_nibble(f, FZ);
                    crate::bits::lemma_high_nibble(f & FZ, FC);
                }
                self.f = nf;
            },
            0x3F => {
                let f = self.f;
                let nf = (f & (FZ | FC)) ^ FC;
                proof {
                    crate::bits::lemma_high_nibble(FZ, FC);
                    crate::bits::lemma_high_nibble(f, FZ | FC);
                    crate::bits::lemma_high_nibble(f & (FZ | FC), FC);
                }
                self.f = nf;
            },
            // JR
            0x18 => {
                let e = self.fetch(bus);
                self.pc = self.pc.wrapping_add(sign_extend(e));
                bus.tick(4);
            },
            _ => {
                // 0x20 | 0x28 | 0x30 | 0x38: JR cc
                let e = self.fetch(bus);
                if self.cond(op_dst(op) % 4) {
                    self.pc = self.pc.wrapping_add(sign_extend(e));
                    bus.tick(4);
                }
            },
        }
        proof {
            if bus.ram_kept(*old(bus)) {
                lemma_ram_kept_stack(*bus, *old(bus));
            }
        }
    }

    /// Opcodes 0x40..=0x7F: LD r8, r8 and HALT.
    #[verifier::spinoff_prover]
    fn execute_load(&mut self, bus: &mut Bus, op: u8)
        requires
            old(bus).wf(),
            !old(self).halt_bug,
            0x40 <= op <= 0x7F,
        ensures
            final(bus).clock@ - old(bus).clock@ == old(self).exec_mcycles(op, *old(bus)) * mcycle(*old(bus)),
            final(bus).double_speed == old(bus).double_speed,
            final(bus).wf(),
            (final(self).ime, final(self).ime_pending) == old(self).ime_after(op),
            final(bus).cart.rom@ == old(bus).cart.rom@ && final(bus).cart.ram@.len() == old(bus).cart.ram@.len(),
            old(self).read_effect(op, *old(bus), *final(bus)) matches Some(c) ==> *final(self) == c && stack_holds(*final(bus), *old(bus), Seq::empty()),
            old(self).store(op, *old(bus)) matches Some(w) ==> *final(self) == w.2 && store_lands(*old(bus), *final(bus), w.0, w.1),
            op == 0x76 ==> *final(bus) == *old(bus),
            old(self).flags_clean() ==> final(self).flags_clean(),
            old(self).effect_load(op, *old(bus)) matches Some(r) ==> *final(self) == r.0 && stack_holds(*final(bus), *old(bus), r.1),
    {
        if op == 0x76 {
            // HALT
            let pending = bus.ie & bus.iff & 0x1F;
            if !self.ime && pending != 0 {
                self.halt_bug = true;
            } else {
                self.halted = true;
            }
            proof { lemma_ram_kept_stack(*bus, *old(bus)); }
            return;
        }
        let src = op_src(op);
        let dst = op_dst(op);
        let v = self.r8_get(bus, src);
        let ghost b1 = *bus;
        self.r8_set(bus, dst, v);
        proof {
            if dst == 6 {
                if src != 6 && plain_ram(old(self).hl_spec()) {
                    lemma_one_store(*bus, b1, *old(bus), old(self).hl_spec(), v);
                }
            } else {
                lemma_ram_kept_stack(*bus, *old(bus));
            }
        }
    }

    /// Opcodes 0x80..=0xBF: ALU A, r8.
    #[verifier::spinoff_prover]
    fn execute_alu(&mut self, bus: &mut Bus, op: u8)
        requires
            old(bus).wf(),
            !old(self).halt_bug,
            0x80 <= op <= 0xBF,
        ensures
            final(bus).clock@ - old(bus).clock@ == old(self).exec_mcycles(op, *old(bus)) * mcycle(*old(bus)),
            final(bus).double_speed == old(bus).double_speed,
            final(bus).wf(),
            (final(self).ime, final(self).ime_pending) == old(self).ime_after(op),
            final(bus).cart.rom@ == old(bus).cart.rom@ && final(bus).cart.ram@.len() == old(bus).cart.ram@.len(),
            old(self).read_effect(op, *old(bus), *final(bus)) matches Some(c) ==> *final(self) == c && stack_holds(*final(bus), *old(bus), Seq::empty()),
            old(self).flags_clean() ==> final(self).flags_clean(),
            old(self).effect_alu(op, *old(bus)) matches Some(r) ==> *final(self) == r.0 && stack_holds(*final(bus), *old(bus), r.1),
    {
        let v = self.r8_get(bus, op_src(op));
        self.alu_op(op_dst(op), v);
        proof { lemma_ram_kept_stack(*bus, *old(bus)); }
    }

    /// Opcodes 0xC0..=0xFF.
    #[verifier::rlimit(100)]
    #[verifier::spinoff_prover]
    fn execute_high(&mut self, bus: &mut Bus, op: u8)
        requires
            old(bus).wf(),
            !old(self).halt_bug,
            0xC0 <= op,
        ensures
            op != 0xCB || steady(old(self).pc) ==> final(bus).clock@ - old(bus).clock@ == old(self).exec_mcycles(op, *old(bus)) * mcycle(*old(bus)),
            0 <= final(bus).clock@ - old(bus).clock@ <= 5 * mcycle(*old(bus)),
            final(bus).double_speed == old(bus).double_speed,
            final(bus).wf(),
            (final(self).ime, final(self).ime_pending) == old(self).ime_after(op),
            final(bus).cart.rom@ == old(bus).cart.rom@ && final(bus).cart.ram@.len() == old(bus).cart.ram@.len(),
            old(self).read_effect(op, *old(bus), *final(bus)) matches Some(c) ==> *final(self) == c && stack_holds(*final(bus), *old(bus), Seq::empty()),
            old(self).store(op, *old(bus)) matches Some(w) ==> *final(self) == w.2 && store_lands(*old(bus), *final(bus), w.0, w.1),
            old(self).flags_clean() ==> final(self).flags_clean(),
            old(self).effect_high(op, *old(bus)) matches Some(r) ==> *final(self) == r.0 && stack_holds(*final(bus), *old(bus), r.1),
    {
        if op == 0xC9 || op == 0xD9 || op == 0xC0 || op == 0xC8 || op == 0xD0 || op == 0xD8 || op == 0xC3 || op == 0xC2 || op == 0xCA || op == 0xD2 || op == 0xDA || op == 0xCD || op == 0xC4 || op == 0xCC || op == 0xD4 || op == 0xDC || op % 8 == 7 || op == 0xC5 || op == 0xD5 || op == 0xE5 || op == 0xF5 || op == 0xC1 || op == 0xD1 || op == 0xE1 || op == 0xF1 {
            proof { lemma_flow_effect(*old(self), op, *old(bus)); }
            self.execute_flow(bus, op);
            return;
        }
        if op == 0xE0 || op == 0xF0 || op == 0xE2 || op == 0xF2 || op == 0xEA || op == 0xFA {
            proof { lemma_high_loads_effect(*old(self), op, *old(bus)); }
            self.execute_high_loads(bus, op);
            return;
        }
        match op {
            0xF3 => {
                self.ime = false;
                self.ime_pending = false;
            },
            0xFB => {
                if !self.ime {
                    self.ime_pending = true;
                }
            },
            0xF9 => {
                self.sp = self.hl();
                bus.tick(4);
            },
            0xE9 => {
                self.pc = self.hl();
            },
            0xF8 => {
                let r = self.add_sp_e(bus);
                self.set_hl(r);
                bus.tick(4);
            },
            0xE8 => {
                self.sp = self.add_sp_e(bus);
                bus.tick(8);
            },
            // ALU A, d8
            0xC6 | 0xCE | 0xD6 | 0xDE | 0xE6 | 0xEE | 0xF6 | 0xFE => {
                let v = self.fetch(bus);
                self.alu_op(op_dst(op), v);
            },
            0xCB => {
                let cb = self.fetch(bus);
                let ghost b1 = *bus;
                let ghost c1 = *self;
                self.execute_cb(bus, cb);
                proof {
                    if cb % 8 == 6 && cb / 64 == 1 {
                        lemma_ram_kept_stack(*bus, *old(bus));
                    }
                    if steady(old(self).pc) {
                        lemma_effect_cb_same(c1, cb, b1, *old(bus));
                        if c1.effect_cb(cb, b1) is Some {
                            lemma_stack_holds_rebase(*bus, b1, *old(bus), c1.effect_cb(cb, b1).unwrap().1);
                        }
                    }
                }
            },
            // Unused opcodes hard-lock real hardware; treat as NOP.
            _ => {},
        }
        proof {
            if bus.ram_kept(*old(bus)) {
                lemma_ram_kept_stack(*bus, *old(bus));
            }
        }
    }

    /// High-page and absolute loads and stores of A.
    #[verifier::rlimit(100)]
    #[verifier::spinoff_prover]
    fn execute_high_loads(&mut self, bus: &mut Bus, op: u8)
        requires
            old(bus).wf(),
            !old(self).halt_bug,
            op == 0xE0 || op == 0xF0 || op == 0xE2 || op == 0xF2 || op == 0xEA || op == 0xFA,
        ensures
            final(bus).clock@ - old(bus).clock@ == old(self).exec_mcycles(op, *old(bus)) * mcycle(*old(bus)),
            final(bus).double_speed == old(bus).double_speed,
            final(bus).wf(),
            (final(self).ime, final(self).ime_pending) == old(self).ime_after(op),
            final(bus).cart.rom@ == old(bus).cart.rom@ && final(bus).cart.ram@.len() == old(bus).cart.ram@.len(),
            old(self).read_effect(op, *old(bus), *final(bus)) matches Some(c) ==> *final(self) == c && stack_holds(*final(bus), *old(bus), Seq::empty()),
            old(self).store(op, *old(bus)) matches Some(w) ==> *final(self) == w.2 && store_lands(*old(bus), *final(bus), w.0, w.1),
            old(self).flags_clean() ==> final(self).flags_clean(),
            old(self).effect_high(op, *old(bus)) matches Some(r) ==> *final(self) == r.0 && stack_holds(*final(bus), *old(bus), r.1),
    {
        match op {
            // High-page and absolute loads
            0xE0 => {
                let off = self.fetch(bus);
                let ghost b1 = *bus;
                let a = self.a;
                let addr = high_page(off);
                self.write(bus, addr, a);
                proof {
                    lemma_store_lands_rebase(b1, *old(bus), *bus, addr, a);
                    if plain_ram(addr) {
                        lemma_one_store(*bus, b1, *old(bus), addr, a);
                    }
                }
            },
            0xF0 => {
                let off = self.fetch(bus);
                self.a = self.read(bus, high_page(off));
            },
            0xE2 => {
                let a = self.a;
                let addr = high_page(self.c);
                let ghost b0 = *bus;
                self.write(bus, addr, a);
                proof {
                    if plain_ram(addr) {
                        lemma_one_store(*bus, b0, b0, addr, a);
                    }
                }
            },
            0xF2 => {
                let addr = high_page(self.c);
                self.a = self.read(bus, addr);
            },
            0xEA => {
                let addr = self.fetch16(bus);
                let ghost b1 = *bus;
                let a = self.a;
                self.write(bus, addr, a);
                proof {
                    lemma_store_lands_rebase(b1, *old(bus), *bus, addr, a);
                    if plain_ram(addr) {
                        lemma_one_store(*bus, b1, *old(bus), addr, a);
                    }
                }
            },
            0xFA => {
                let addr = self.fetch16(bus);
                self.a = self.read(bus, addr);
            },
            _ => {},
        }
        proof {
            if bus.ram_kept(*old(bus)) {
                lemma_ram_kept_stack(*bus, *old(bus));
            }
        }
    }

    /// Returns, jumps, calls, restarts, pushes and pops.
    #[verifier::rlimit(100)]
    #[verifier::spinoff_prover]
    fn execute_flow(&mut self, bus: &mut Bus, op: u8)
        requires
            old(bus).wf(),
            !old(self).halt_bug,
            0xC0 <= op,
            op == 0xC9 || op == 0xD9 || op == 0xC0 || op == 0xC8 || op == 0xD0 || op == 0xD8 || op == 0xC3 || op == 0xC2 || op == 0xCA || op == 0xD2 || op == 0xDA || op == 0xCD || op == 0xC4 || op == 0xCC || op == 0xD4 || op == 0xDC || op % 8 == 7 || op == 0xC5 || op == 0xD5 || op == 0xE5 || op == 0xF5 || op == 0xC1 || op == 0xD1 || op == 0xE1 || op == 0xF1,
        ensures
            final(bus).clock@ - old(bus).clock@ == old(self).exec_mcycles(op, *old(bus)) * mcycle(*old(bus)),
            final(bus).double_speed == old(bus).double_speed,
            final(bus).wf(),
            (final(self).ime, final(self).ime_pending) == old(self).ime_after(op),
            final(bus).cart.rom@ == old(bus).cart.rom@ && final(bus).cart.ram@.len() == old(bus).cart.ram@.len(),
            old(self).flags_clean() ==> final(self).flags_clean(),
            old(self).effect_flow(op, *old(bus)) matches Some(r) ==> *final(self) == r.0 && stack_holds(*final(bus), *old(bus), r.1),
    {
        match op {
            // RET / RETI / RET cc
            0xC9 => {
                self.pc = self.pop16(bus);
                bus.tick(4);
            },
            0xD9 => {
                self.pc = self.pop16(bus);
                self.ime = true;
                bus.tick(4);
            },
            0xC0 | 0xC8 | 0xD0 | 0xD8 => {
                bus.tick(4);
                if self.cond(op_dst(op) % 4) {
                    self.pc = self.pop16(bus);
                    bus.tick(4);
                }
            },
            // JP
            0xC3 => {
                self.pc = self.fetch16(bus);
                bus.tick(4);
            },
            0xC2 | 0xCA | 0xD2 | 0xDA => {
                let addr = self.fetch16(bus);
                if self.cond(op_dst(op) % 4) {
                    self.pc = addr;
                    bus.tick(4);
                }
            },
            // CALL
            0xCD => {
                let addr = self.fetch16(bus);
                bus.tick(4);
                let ghost b1 = *bus;
                let pc = self.pc;
                self.push16(bus, pc);
                self.pc = addr;
                proof {
                    if old(self).push_ok() {
                        lemma_stack_holds_rebase(*bus, b1, *old(bus), old(self).push_writes(pc));
                    }
                }
            },
            0xC4 | 0xCC | 0xD4 | 0xDC => {
                let addr = self.fetch16(bus);
                if self.cond(op_dst(op) % 4) {
                    bus.tick(4);
                    let ghost b1 = *bus;
                    let pc = self.pc;
                    self.push16(bus, pc);
                    self.pc = addr;
                    proof {
                        if old(self).push_ok() {
                            lemma_stack_holds_rebase(*bus, b1, *old(bus), old(self).push_writes(pc));
                        }
                    }
                }
            },
            // RST
            0xC7 | 0xCF | 0xD7 | 0xDF | 0xE7 | 0xEF | 0xF7 | 0xFF => {
                bus.tick(4);
                let ghost b1 = *bus;
                let pc = self.pc;
                self.push16(bus, pc);
                self.pc = (op & 0x38) as u16;
                proof {
                    if old(self).push_ok() {
                        lemma_stack_holds_rebase(*bus, b1, *old(bus), old(self).push_writes(pc));
                    }
                }
            },
            // PUSH / POP
            0xC5 => {
                bus.tick(4);
                let ghost b1 = *bus;
                let v = self.bc();
                self.push16(bus, v);
                proof {
                    if old(self).push_ok() {
                        lemma_stack_holds_rebase(*bus, b1, *old(bus), old(self).push_writes(v));
                    }
                }
            },
            0xD5 => {
                bus.tick(4);
                let ghost b1 = *bus;
                let v = self.de();
                self.push16(bus, v);
                proof {
                    if old(self).push_ok() {
                        lemma_stack_holds_rebase(*bus, b1, *old(bus), old(self).push_writes(v));
                    }
                }
            },
            0xE5 => {
                bus.tick(4);
                let ghost b1 = *bus;
                let v = self.hl();
                self.push16(bus, v);
                proof {
                    if old(self).push_ok() {
                        lemma_stack_holds_rebase(*bus, b1, *old(bus), old(self).push_writes(v));
                    }
                }
            },
            0xF5 => {
                bus.tick(4);
                let ghost b1 = *bus;
                let v = self.af();
                self.push16(bus, v);
                proof {
                    if old(self).push_ok() {
                        lemma_stack_holds_rebase(*bus, b1, *old(bus), old(self).push_writes(v));
                    }
                }
            },
            0xC1 => {
                let v = self.pop16(bus);
                self.set_bc(v);
            },
            0xD1 => {
                let v = self.pop16(bus);
                self.set_de(v);
            },
            0xE1 => {
                let v = self.pop16(bus);
                self.set_hl(v);
            },
            0xF1 => {
                let v = self.pop16(bus);
                self.set_af(v);
            },
            _ => {},
        }
        proof {
            if bus.ram_kept(*old(bus)) {
                lemma_ram_kept_stack(*bus, *old(bus));
            }
        }
    }

    #[verifier::spinoff_prover]
    fn execute_cb(&mut self, bus: &mut Bus, op: u8)
        requires
            old(bus).wf(),
        ensures
            final(bus).clock@ - old(bus).clock@ == cb_mcycles(op) * mcycle(*old(bus)),
            final(bus).double_speed == old(bus).double_speed,
            final(bus).wf(),
            final(self).ime == old(self).ime && final(self).ime_pending == old(self).ime_pending,
            final(bus).cart.rom@ == old(bus).cart.rom@ && final(bus).cart.ram@.len() == old(bus).cart.ram@.len(),
            op % 8 == 6 && op / 64 == 1 ==> final(bus).ram_kept(*old(bus)) && *final(self) == (Cpu {
                f: (old(self).f & FC) | FH | (if final(bus).read_spec(old(self).hl_spec()) & (1u8 << (op / 8 % 8) as u8) == 0 { FZ } else { 0 }),
                ..*old(self)
            }),
            old(self).flags_clean() ==> final(self).flags_clean(),
            old(self).effect_cb(op, *old(bus)) matches Some(r) ==> *final(self) == r.0 && stack_holds(*final(bus), *old(bus), r.1),
    {
        let idx = op_src(op);
        let bit = op_dst(op);
        match op / 64 {
            0 => {
                let v = self.r8_get(bus, idx);
                let ghost b1 = *bus;
                let r = self.shift_op(bit, v);
                self.r8_set(bus, idx, r);
                proof {
                    if idx == 6 && plain_ram(old(self).hl_spec()) {
                        lemma_one_store(*bus, b1, *old(bus), old(self).hl_spec(), r);
                    }
                }
            },
            1 => {
                // BIT b, r8
                let v = self.r8_get(bus, idx);
                let f = self.f;
                let zz: u8 = if v & (1u8 << bit) == 0 { FZ } else { 0 };
                let nf = (f & FC) | FH | zz;
                proof {
                    crate::bits::lemma_high_nibble(f, FC);
                    crate::bits::lemma_high_nibble(f & FC, FH);
                    crate::bits::lemma_high_nibble((f & FC) | FH, zz);
                }
                self.f = nf;
            },
            2 => {
                // RES
                let v = self.r8_get(bus, idx);
                let ghost b1 = *bus;
                let r = v & !(1u8 << bit);
                self.r8_set(bus, idx, r);
                proof {
                    if idx == 6 && plain_ram(old(self).hl_spec()) {
                        lemma_one_store(*bus, b1, *old(bus), old(self).hl_spec(), r);
                    }
                }
            },
            _ => {
                // SET
                let v = self.r8_get(bus, idx);
                let ghost b1 = *bus;
                let r = v | (1u8 << bit);
                self.r8_set(bus, idx, r);
                proof {
                    if idx == 6 && plain_ram(old(self).hl_spec()) {
                        lemma_one_store(*bus, b1, *old(bus), old(self).hl_spec(), r);
                    }
                }
            },
        }
        proof {
            if bus.ram_kept(*old(bus)) {
                lemma_ram_kept_stack(*bus, *old(bus));
            }
        }
    }

    /// Push `v` (high byte first); SP ends two bytes lower.
    fn push16(&mut self, bus: &mut Bus, v: u16)
        requires
            old(bus).wf(),
        ensures
            final(bus).clock@ - old(bus).clock@ == 2 * mcycle(*old(bus)),
            final(bus).double_speed == old(bus).double_speed,
            final(bus).wf(),
            plain_ram(dec16(old(self).sp)) && plain_ram(dec16(dec16(old(self).sp))) ==> two_stores(*old(bus), *final(bus),
                dec16(old(self).sp), hi_byte(v), dec16(dec16(old(self).sp)), lo_byte(v)),
            final(bus).cart.rom@ == old(bus).cart.rom@ && final(bus).cart.ram@.len() == old(bus).cart.ram@.len(),
            *final(self) == (Cpu { sp: dec16(dec16(old(self).sp)), ..*old(self) }),
            plain_ram(dec16(old(self).sp)) && plain_ram(dec16(dec16(old(self).sp))) ==> stack_holds(
                *final(bus),
                *old(bus),
                seq![(dec16(old(self).sp), hi_byte(v)), (dec16(dec16(old(self).sp)), lo_byte(v))],
            ),
    {
        let (hi, lo) = split(v);
        let ghost b0 = *bus;
        self.sp = self.sp.wrapping_sub(1);
        self.write(bus, self.sp, hi);
        let ghost b1 = *bus;
        self.sp = self.sp.wrapping_sub(1);
        self.write(bus, self.sp, lo);
        proof {
            let s1 = dec16(old(self).sp);
            let s2 = dec16(s1);
            if plain_ram(s1) && plain_ram(s2) {
                lemma_ram_kept_stack(b0, b0);
                lemma_stack_holds_write(b1, b0, b0, Seq::empty(), s1, hi);
                lemma_stack_holds_write(*bus, b1, b0, seq![(s1, hi)], s2, lo);
                assert(seq![(s1, hi)].push((s2, lo)) =~= seq![(s1, hi), (s2, lo)]);
                let m1 = choose|m: Bus| b0.tick_result(m, 4) && #[trigger] m.stored(b1, s1, hi);
                let m3 = choose|m: Bus| b1.tick_result(m, 4) && #[trigger] m.stored(*bus, s2, lo);
                assert(b0.tick_result(m1, 4) && m1.stored(b1, s1, hi) && b1.tick_result(m3, 4) && m3.stored(*bus, s2, lo));
            }
        }
    }

    /// Pop a 16-bit value (low byte first); SP ends two bytes higher.
    fn pop16(&mut self, bus: &mut Bus) -> (v: u16)
        requires
            old(bus).wf(),
        ensures
            final(bus).clock@ - old(bus).clock@ == 2 * mcycle(*old(bus)),
            final(bus).double_speed == old(bus).double_speed,
            final(bus).wf(),
            final(bus).cart.rom@ == old(bus).cart.rom@ && final(bus).cart.ram@.len() == old(bus).cart.ram@.len(),
            final(bus).ram_kept(*old(bus)),
            *final(self) == (Cpu { sp: inc16(inc16(old(self).sp)), ..*old(self) }),
            plain_ram(old(self).sp) && plain_ram(inc16(old(self).sp)) ==> v == pair(
                old(bus).read_spec(inc16(old(self).sp)),
                old(bus).read_spec(old(self).sp),
            ),
    {
        let lo = self.read(bus, self.sp);
        self.sp = self.sp.wrapping_add(1);
        let hi = self.read(bus, self.sp);
        self.sp = self.sp.wrapping_add(1);
        join(hi, lo)
    }
}

/// An 8-bit signed displacement widened to 16 bits.
fn sign_extend(e: u8) -> (r: u16)
    ensures
        r == (if e < 128 { e as u16 } else { (e as int + 0xFF00) as u16 }),
{
    if e < 128 {
        e as u16
    } else {
        let r = e as u16 | 0xFF00;
        assert(r == e as u16 + 0xFF00) by (bit_vector) requires r == e as u16 | 0xFF00u16;
        r
    }
}

/// For the control-flow and stack opcodes the general effect is the flow effect.
proof fn lemma_flow_effect(c: Cpu, op: u8, b: Bus)
    requires
        0xC0 <= op,
        op == 0xC9 || op == 0xD9 || op == 0xC0 || op == 0xC8 || op == 0xD0 || op == 0xD8 || op == 0xC3 || op == 0xC2 || op == 0xCA || op == 0xD2 || op == 0xDA || op == 0xCD || op == 0xC4 || op == 0xCC || op == 0xD4 || op == 0xDC || op % 8 == 7 || op == 0xC5 || op == 0xD5 || op == 0xE5 || op == 0xF5 || op == 0xC1 || op == 0xD1 || op == 0xE1 || op == 0xF1,
    ensures
        c.effect_high(op, b) == c.effect_flow(op, b),
{
    assert(c.reg_effect(op) is None);
}

/// The high-page and absolute loads are not control flow.
proof fn lemma_high_loads_effect(c: Cpu, op: u8, b: Bus)
    requires
        op == 0xE0 || op == 0xF0 || op == 0xE2 || op == 0xF2 || op == 0xEA || op == 0xFA,
    ensures
        c.reg_effect(op) is None,
        c.effect_flow(op, b) is None,
{
}

/// Address `0xFF00 + off` in the I/O and high-RAM page.
fn high_page(off: u8) -> (r: u16)
    ensures
        r == 0xFF00 + off,
{
    let r = 0xFF00u16 | off as u16;
    assert(r == 0xFF00 + off) by (bit_vector) requires r == 0xFF00u16 | off as u16;
    r
}

/// Reads of steady memory agree on buses with the same cartridge and RAM.
pub proof fn lemma_steady_read(b1: Bus, b0: Bus, a: u16)
    requires
        b1.ram_kept(b0),
        b1.cart == b0.cart,
        steady(a),
    ensures
        b1.read_spec(a) == b0.read_spec(a),
{
}

/// Steady memory reads the same on buses with the same cartridge and RAM.
pub open spec fn steady_same(b1: Bus, b0: Bus) -> bool {
    forall|a: u16| steady(a) ==> #[trigger] b1.read_spec(a) == b0.read_spec(a)
}

proof fn lemma_steady_same(b1: Bus, b0: Bus)
    requires
        b1.ram_kept(b0),
        b1.cart == b0.cart,
    ensures
        steady_same(b1, b0),
{
    assert forall|a: u16| steady(a) implies #[trigger] b1.read_spec(a) == b0.read_spec(a) by {
        lemma_steady_read(b1, b0, a);
    }
}

proof fn lemma_effect_low_same(c: Cpu, op: u8, b1: Bus, b0: Bus)
    requires
        steady_same(b1, b0),
    ensures
        c.effect_low(op, b1) == c.effect_low(op, b0),
{
    assert(steady(c.pc) ==> b1.read_spec(c.pc) == b0.read_spec(c.pc));
    assert(steady(inc16(c.pc)) ==> b1.read_spec(inc16(c.pc)) == b0.read_spec(inc16(c.pc)));
    assert(steady(c.hl_spec()) ==> b1.read_spec(c.hl_spec()) == b0.read_spec(c.hl_spec()));
    assert(steady(c.bc_spec()) ==> b1.read_spec(c.bc_spec()) == b0.read_spec(c.bc_spec()));
    assert(steady(c.de_spec()) ==> b1.read_spec(c.de_spec()) == b0.read_spec(c.de_spec()));
}

proof fn lemma_effect_flow_same(c: Cpu, op: u8, b1: Bus, b0: Bus)
    requires
        steady_same(b1, b0),
    ensures
        c.effect_flow(op, b1) == c.effect_flow(op, b0),
{
    assert(steady(c.pc) ==> b1.read_spec(c.pc) == b0.read_spec(c.pc));
    assert(steady(inc16(c.pc)) ==> b1.read_spec(inc16(c.pc)) == b0.read_spec(inc16(c.pc)));
    assert(steady(c.sp) ==> b1.read_spec(c.sp) == b0.read_spec(c.sp));
    assert(steady(inc16(c.sp)) ==> b1.read_spec(inc16(c.sp)) == b0.read_spec(inc16(c.sp)));
}

proof fn lemma_effect_high_same(c: Cpu, op: u8, b1: Bus, b0: Bus)
    requires
        steady_same(b1, b0),
        b1.ram_kept(b0),
        b1.cart == b0.cart,
    ensures
        c.effect_high(op, b1) == c.effect_high(op, b0),
{
    lemma_effect_flow_same(c, op, b1, b0);
    let imm = c.imm8(b0);
    assert(steady(c.pc) ==> b1.read_spec(c.pc) == b0.read_spec(c.pc));
    assert(steady(inc16(c.pc)) ==> b1.read_spec(inc16(c.pc)) == b0.read_spec(inc16(c.pc)));
    let page = (0xFF00 + imm) as u16;
    let cpage = (0xFF00 + c.c) as u16;
    assert(steady(page) ==> b1.read_spec(page) == b0.read_spec(page));
    assert(steady(cpage) ==> b1.read_spec(cpage) == b0.read_spec(cpage));
    let word = c.imm16(b0);
    assert(steady(word) ==> b1.read_spec(word) == b0.read_spec(word));
    lemma_effect_cb_same(c.skip(1), imm, b1, b0);
}

/// Instructions other than HALT read only steady memory, so their effect is
/// the same on buses with the same cartridge and RAM.
proof fn lemma_read_effect_same(c: Cpu, op: u8, b1: Bus, b0: Bus, after: Bus)
    requires
        b1.ram_kept(b0),
        b1.cart == b0.cart,
    ensures
        c.read_effect(op, b1, after) == c.read_effect(op, b0, after),
{
    lemma_steady_same(b1, b0);
    assert(steady(c.pc) ==> b1.read_spec(c.pc) == b0.read_spec(c.pc));
    assert(steady(inc16(c.pc)) ==> b1.read_spec(inc16(c.pc)) == b0.read_spec(inc16(c.pc)));
}

proof fn lemma_store_same(c: Cpu, op: u8, b1: Bus, b0: Bus)
    requires
        b1.ram_kept(b0),
        b1.cart == b0.cart,
    ensures
        c.store(op, b1) == c.store(op, b0),
{
    lemma_steady_same(b1, b0);
    assert(steady(c.pc) ==> b1.read_spec(c.pc) == b0.read_spec(c.pc));
    assert(steady(inc16(c.pc)) ==> b1.read_spec(inc16(c.pc)) == b0.read_spec(inc16(c.pc)));
}

proof fn lemma_effect_same(c: Cpu, op: u8, b1: Bus, b0: Bus)
    requires
        b1.ram_kept(b0),
        b1.cart == b0.cart,
        op != 0x76,
    ensures
        c.effect(op, b1) == c.effect(op, b0),
{
    lemma_steady_same(b1, b0);
    if op <= 0x3F {
        lemma_effect_low_same(c, op, b1, b0);
    } else if op <= 0x7F {
        assert(steady(c.hl_spec()) ==> b1.read_spec(c.hl_spec()) == b0.read_spec(c.hl_spec()));
    } else if op <= 0xBF {
        assert(steady(c.hl_spec()) ==> b1.read_spec(c.hl_spec()) == b0.read_spec(c.hl_spec()));
    } else {
        lemma_effect_high_same(c, op, b1, b0);
    }
}

/// A CB-prefixed instruction reads only steady memory.
proof fn lemma_effect_cb_same(c: Cpu, op: u8, b1: Bus, b0: Bus)
    requires
        b1.ram_kept(b0),
        b1.cart == b0.cart,
    ensures
        c.effect_cb(op, b1) == c.effect_cb(op, b0),
{
    let hl = c.hl_spec();
    if steady(hl) {
        lemma_steady_read(b1, b0, hl);
    }
}

/// Bits 3..=5 of an opcode (destination register or operation).
fn op_dst(op: u8) -> (r: u8)
    ensures
        r == op / 8 % 8,
        r < 8,
{
    let r = (op >> 3u8) & 7;
    assert(r == op / 8 % 8) by (bit_vector) requires r == (op >> 3u8) & 7;
    r
}

/// Bits 0..=2 of an opcode (source register).
fn op_src(op: u8) -> (r: u8)
    ensures
        r == op % 8,
        r < 8,
{
    let r = op & 7;
    assert(r == op % 8) by (bit_vector) requires r == op & 7;
    r
}

fn wadd8(x: u8, y: u8) -> (r: u8)
    ensures
        r == add8(x, y),
{
    x.wrapping_add(y)
}

fn wsub8(x: u8, y: u8) -> (r: u8)
    ensures
        r == sub8(x, y),
{
    x.wrapping_sub(y)
}

/// A register pair from its halves.
fn join(hi: u8, lo: u8) -> (v: u16)
    ensures
        v == pair(hi, lo),
{
    let v = ((hi as u16) << 8u16) | lo as u16;
    assert(v == hi as u16 * 256 + lo as u16) by (bit_vector)
        requires v == ((hi as u16) << 8u16) | lo as u16;
    v
}

/// A register pair's halves.
fn split(v: u16) -> (r: (u8, u8))
    ensures
        r.0 == hi_byte(v),
        r.1 == lo_byte(v),
{
    let hi = (v >> 8u16) as u8;
    let lo = (v & 0xFF) as u8;
    assert(hi == v / 256 && lo == v % 256) by (bit_vector)
        requires hi == (v >> 8u16) as u8, lo == (v & 0xFF) as u8;
    (hi, lo)
}

pub proof fn lemma_flags_clean(z: bool, n: bool, h: bool, c: bool)
    ensures
        flags(z, n, h, c) & 0x0F == 0,
{
    let f = flags(z, n, h, c);
    assert(f & 0x0F == 0) by (bit_vector)
        requires f == (if z { 0x80u8 } else { 0 }) | (if n { 0x40u8 } else { 0 }) | (if h { 0x20u8 } else { 0 }) | (if c { 0x10u8 } else { 0 });
}

/// Each flag of a flag byte reads back as it was set.
pub proof fn lemma_flags_read(z: bool, n: bool, h: bool, c: bool)
    ensures
        (flags(z, n, h, c) & FZ != 0) == z,
        (flags(z, n, h, c) & FN != 0) == n,
        (flags(z, n, h, c) & FH != 0) == h,
        (flags(z, n, h, c) & FC != 0) == c,
{
    let f = flags(z, n, h, c);
    assert((f & 0x80 != 0) == z && (f & 0x40 != 0) == n && (f & 0x20 != 0) == h && (f & 0x10 != 0) == c) by (bit_vector)
        requires f == (if z { 0x80u8 } else { 0 }) | (if n { 0x40u8 } else { 0 }) | (if h { 0x20u8 } else { 0 }) | (if c { 0x10u8 } else { 0 });
}

/// A byte holding two BCD digits.
pub open spec fn bcd(x: u8) -> bool {
    x % 16 <= 9 && x / 16 <= 9
}

/// The number two BCD digits stand for.
pub open spec fn bcd_value(x: u8) -> int {
    (x / 16) * 10 + x % 16
}

/// `v` (0..=99) as two BCD digits.
pub open spec fn to_bcd(v: int) -> u8 {
    ((v / 10) * 16 + v % 10) as u8
}

proof fn lemma_daa_core(x: u8, y: u8)
    by (bit_vector)
    requires
        x % 16 <= 9,
        x / 16 <= 9,
        y % 16 <= 9,
        y / 16 <= 9,
    ensures
        ({
            let r = ((x + y) % 256) as u8;
            let carry = x + y > 0xFF || r > 0x99;
            let a1 = if carry { ((r + 0x60) % 256) as u8 } else { r };
            let a2 = if (x & 0x0F) + (y & 0x0F) > 0x0F || (a1 & 0x0F) > 0x09 { ((a1 + 0x06) % 256) as u8 } else { a1 };
            let v = (x / 16) * 10 + x % 16 + (y / 16) * 10 + y % 16;
            &&& a2 == (((v % 100) / 10) * 16 + (v % 100) % 10) as u8
            &&& carry == (v >= 100)
        }),
{
}

/// The flag byte DAA leaves: Z from the result, N kept, H cleared, C set
/// by the adjustment or kept, low nibble clear.
proof fn lemma_daa_flags(sf: u8, a2: u8, carry: bool, df: u8)
    by (bit_vector)
    requires
        df == (sf & (0x40u8 | 0x10u8)) | (if a2 == 0 { 0x80u8 } else { 0 }) | (if carry { 0x10u8 } else { 0 }),
    ensures
        (df & 0x80 != 0) == (a2 == 0),
        (df & 0x40 != 0) == (sf & 0x40 != 0),
        df & 0x20 == 0,
        (df & 0x10 != 0) == (carry || sf & 0x10 != 0),
        df & 0x0F == 0,
{
}

proof fn lemma_daa_sub_core(x: u8, y: u8)
    by (bit_vector)
    requires
        x % 16 <= 9,
        x / 16 <= 9,
        y % 16 <= 9,
        y / 16 <= 9,
    ensures
        ({
            let r = ((x - y + 512) % 256) as u8;
            let a1 = if x < y { ((r - 0x60 + 256) % 256) as u8 } else { r };
            let a2 = if (x & 0x0F) < (y & 0x0F) { ((a1 - 0x06 + 256) % 256) as u8 } else { a1 };
            let v = (x / 16) * 10 + x % 16 + 100 - ((y / 16) * 10 + y % 16);
            a2 == (((v % 100) / 10) * 16 + (v % 100) % 10) as u8
        }),
{
}

/// DAA after ADD of two BCD bytes gives their decimal sum in BCD (modulo
/// 100), with the carry flag set exactly when the sum reaches 100, Z set
/// exactly when the result is zero, and N and H clear.
pub proof fn lemma_daa_bcd_add(c: Cpu, y: u8)
    requires
        bcd(c.a),
        bcd(y),
    ensures
        c.added(y, false).daa_result().a == to_bcd((bcd_value(c.a) + bcd_value(y)) % 100),
        c.added(y, false).daa_result().flag_spec(FC) == (bcd_value(c.a) + bcd_value(y) >= 100),
        c.added(y, false).daa_result().flag_spec(FZ) == (c.added(y, false).daa_result().a == 0),
        !c.added(y, false).daa_result().flag_spec(FN),
        !c.added(y, false).daa_result().flag_spec(FH),
        c.added(y, false).daa_result().flags_clean(),
{
    let x = c.a;
    let s = c.added(y, false);
    let r = ((x + y) % 256) as u8;
    lemma_flags_read(r == 0, false, (x & 0x0F) + (y & 0x0F) > 0x0F, x + y > 0xFF);
    lemma_daa_core(x, y);
    let d = s.daa_result();
    let carry = x + y > 0xFF || r > 0x99;
    lemma_daa_flags(s.f, d.a, carry, d.f);
}

/// DAA after SUB of two BCD bytes gives their decimal difference in BCD
/// (modulo 100), with the carry flag set exactly when a borrow was needed,
/// Z set exactly when the result is zero, N set and H clear.
pub proof fn lemma_daa_bcd_sub(c: Cpu, y: u8)
    requires
        bcd(c.a),
        bcd(y),
    ensures
        c.subtracted(y, false, true).daa_result().a == to_bcd((bcd_value(c.a) + 100 - bcd_value(y)) % 100),
        c.subtracted(y, false, true).daa_result().flag_spec(FC) == (bcd_value(c.a) < bcd_value(y)),
        c.subtracted(y, false, true).daa_result().flag_spec(FZ) == (c.subtracted(y, false, true).daa_result().a == 0),
        c.subtracted(y, false, true).daa_result().flag_spec(FN),
        !c.subtracted(y, false, true).daa_result().flag_spec(FH),
        c.subtracted(y, false, true).daa_result().flags_clean(),
{
    let x = c.a;
    let s = c.subtracted(y, false, true);
    let r = ((x - y + 512) % 256) as u8;
    lemma_flags_read(r == 0, true, (x & 0x0F) < (y & 0x0F), x - y < 0);
    lemma_daa_sub_core(x, y);
    let d = s.daa_result();
    lemma_daa_flags(s.f, d.a, x < y, d.f);
    assert(bcd_value(x) < bcd_value(y) <==> x < y) by (nonlinear_arith)
        requires
            x % 16 <= 9,
            y % 16 <= 9,
            bcd_value(x) == (x / 16) * 10 + x % 16,
            bcd_value(y) == (y / 16) * 10 + y % 16,
    {
        assert(x == (x / 16) * 16 + x % 16);
        assert(y == (y / 16) * 16 + y % 16);
    }
}

proof fn lemma_shift_arith(v: u8, cin: u8)
    by (bit_vector)
    requires
        cin <= 1,
    ensures
        ((v << 1u8) | (v >> 7u8)) as u16 == ((2 * v) % 256 + v / 128) as u16
        && ((v >> 1u8) | (v << 7u8)) as u16 == (v / 2 + (v % 2) * 128) as u16
        && ((v << 1u8) | cin) as u16 == ((2 * v) % 256 + cin) as u16
        && ((v >> 1u8) | (cin << 7u8)) as u16 == (v / 2 + cin * 128) as u16
        && (v << 1u8) as u16 == ((2 * v) % 256) as u16
        && ((v >> 1u8) | (v & 0x80)) as u16 == (v / 2 + (v / 128) * 128) as u16
        && ((v << 4u8) | (v >> 4u8)) as u16 == ((v % 16) * 16 + v / 16) as u16
        && (v >> 1u8) as u16 == (v / 2) as u16
        && (v & 0x80 != 0) == (v >= 128)
        && (v & 1 != 0) == (v % 2 == 1),
{
}

/// The CB-prefix shifts and rotates as arithmetic on the operand `v`, with
/// `cin` the carry flag going in:
/// RLC, RRC rotate the byte; RL, RR rotate through the carry; SLA doubles;
/// SRA halves keeping the sign bit (as a signed byte it is `v >> 1`); SWAP
/// exchanges the nibbles; SRL halves. The carry gets the bit shifted out
/// (bit 7 for left shifts, bit 0 for right shifts), SWAP clears it; Z is set
/// exactly for a zero result, N and H are clear.
pub proof fn lemma_shift_ops(c: Cpu, v: u8)
    ensures
        ({
            let cin: int = if c.flag_spec(FC) { 1 } else { 0 };
            &&& c.shift_result(0, v) == (2 * v) % 256 + v / 128
            &&& c.shift_result(1, v) == v / 2 + (v % 2) * 128
            &&& c.shift_result(2, v) == (2 * v) % 256 + cin
            &&& c.shift_result(3, v) == v / 2 + cin * 128
            &&& c.shift_result(4, v) == (2 * v) % 256
            &&& c.shift_result(5, v) == v / 2 + (if v >= 128 { 128int } else { 0 })
            &&& c.shift_result(6, v) == (v % 16) * 16 + v / 16
            &&& c.shift_result(7, v) == v / 2
        }),
        Cpu::shift_carry(0, v) == (v >= 128) && Cpu::shift_carry(2, v) == (v >= 128)
            && Cpu::shift_carry(4, v) == (v >= 128),
        Cpu::shift_carry(1, v) == (v % 2 == 1) && Cpu::shift_carry(3, v) == (v % 2 == 1)
            && Cpu::shift_carry(5, v) == (v % 2 == 1) && Cpu::shift_carry(7, v) == (v % 2 == 1),
        !Cpu::shift_carry(6, v),
        forall|sel: u8| sel < 8 ==> {
            let f = #[trigger] c.shifted_flags(sel, v);
            &&& (f & FZ != 0) == (c.shift_result(sel, v) == 0)
            &&& f & FN == 0
            &&& f & FH == 0
            &&& (f & FC != 0) == Cpu::shift_carry(sel, v)
        },
{
    let cin: u8 = if c.flag_spec(FC) { 1 } else { 0 };
    lemma_shift_arith(v, cin);
    assert forall|sel: u8| sel < 8 implies {
        let f = #[trigger] c.shifted_flags(sel, v);
        &&& (f & FZ != 0) == (c.shift_result(sel, v) == 0)
        &&& f & FN == 0
        &&& f & FH == 0
        &&& (f & FC != 0) == Cpu::shift_carry(sel, v)
    } by {
        lemma_flags_read(c.shift_result(sel, v) == 0, false, false, Cpu::shift_carry(sel, v));
    }
}

/// What a PUSH stores on a stack in plain RAM, the matching POP returns:
/// after the stores of pushing `v`, the word on top of the lowered stack is
/// `v`.
pub proof fn lemma_push_then_pop(c: Cpu, v: u16, before: Bus, after: Bus)
    requires
        c.push_ok(),
        stack_holds(after, before, c.push_writes(v)),
    ensures
        (Cpu { sp: dec16(dec16(c.sp)), ..c }).pop_ok(),
        (Cpu { sp: dec16(dec16(c.sp)), ..c }).popped(after) == v,
{
    let s1 = dec16(c.sp);
    let s2 = dec16(s1);
    let w = c.push_writes(v);
    assert(w.drop_last() =~= seq![(s1, hi_byte(v))]);
    assert(seq![(s1, hi_byte(v))].drop_last() =~= Seq::<(u16, u8)>::empty());
    assert(inc16(s2) == s1);
    assert(s1 != s2);
    assert(w.last() == (s2, lo_byte(v)));
    assert(after.read_spec(s2) == lo_byte(v));
    assert(mem_after(before, w, s1) == mem_after(before, w.drop_last(), s1));
    assert(seq![(s1, hi_byte(v))].last() == (s1, hi_byte(v)));
    assert(after.read_spec(s1) == hi_byte(v));
    lemma_pair_roundtrip(v);
}

/// Splitting a 16-bit value into its register halves and joining them again
/// gives the value back (so a pair read after a pair write returns what was
/// written, and a pushed word pops back unchanged).
pub proof fn lemma_pair_roundtrip(v: u16)
    ensures
        pair(hi_byte(v), lo_byte(v)) == v,
{
}

} // verus!


