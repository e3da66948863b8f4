//! DIV/TIMA timer with the internal 16-bit divider and falling-edge behaviour.

use vstd::prelude::*;

verus! {

/// Divider bit that clocks TIMA for each TAC frequency selection.
pub open spec fn tap_bit_spec(tac: u8) -> u16 {
    let sel = tac & 3;
    if sel == 0 {
        9
    } else if sel == 1 {
        3
    } else if sel == 2 {
        5
    } else {
        7
    }
}

/// Whether the multiplexed divider bit feeding TIMA is high.
pub open spec fn tap_spec(div: u16, tac: u8) -> bool {
    tac & 4 != 0 && div & (1u16 << tap_bit_spec(tac)) != 0
}

pub struct Timer {
    /// Internal counter; the DIV register is its high byte.
    pub div: u16,
    pub tima: u8,
    pub tma: u8,
    pub tac: u8,
    pub interrupt: bool,
}

impl Timer {
    /// TIMA incremented once: on overflow it is reloaded from TMA and the
    /// interrupt is requested.
    pub open spec fn incremented(self) -> Timer {
        if self.tima == 255 {
            Timer { tima: self.tma, interrupt: true, ..self }
        } else {
            Timer { tima: (self.tima + 1) as u8, ..self }
        }
    }

    /// One T-cycle: the divider advances and a falling edge on the tapped
    /// bit increments TIMA.
    pub open spec fn stepped(self) -> Timer {
        let next_div: u16 = if self.div == 0xFFFF { 0 } else { (self.div + 1) as u16 };
        let moved = Timer { div: next_div, ..self };
        if tap_spec(self.div, self.tac) && !tap_spec(next_div, self.tac) {
            moved.incremented()
        } else {
            moved
        }
    }

    /// The timer after `n` T-cycles.
    pub open spec fn run(self, n: nat) -> Timer
        decreases n,
    {
        if n == 0 {
            self
        } else {
            self.stepped().run((n - 1) as nat)
        }
    }

    /// Value seen by a CPU read of the timer register at `addr`.
    pub open spec fn read_spec(self, addr: u16) -> u8 {
        if addr == 0xFF04 {
            (self.div >> 8) as u8
        } else if addr == 0xFF05 {
            self.tima
        } else if addr == 0xFF06 {
            self.tma
        } else {
            self.tac | 0xF8
        }
    }

    /// The timer after a CPU write of `val` to the register at `addr`.
    pub open spec fn written(self, addr: u16, val: u8) -> Timer {
        if addr == 0xFF04 {
            // Resetting DIV can produce a falling edge on the tap.
            let t = if tap_spec(self.div, self.tac) { self.incremented() } else { self };
            Timer { div: 0, ..t }
        } else if addr == 0xFF05 {
            Timer { tima: val, ..self }
        } else if addr == 0xFF06 {
            Timer { tma: val, ..self }
        } else {
            Timer { tac: val & 0x07, ..self }
        }
    }

    /// The timer at power-on.
    pub open spec fn new_spec() -> Timer {
        Timer { div: 0xABCC, tima: 0, tma: 0, tac: 0xF8, interrupt: false }
    }

    pub fn new() -> (t: Timer)
        ensures
            t == Timer::new_spec(),
    {
        Timer { div: 0xABCC, tima: 0, tma: 0, tac: 0xF8, interrupt: false }
    }

    fn tap(&self) -> (b: bool)
        ensures
            b == tap_spec(self.div, self.tac),
    {
        if self.tac & 0x04 == 0 {
            return false;
        }
        let bit: u16 = match self.tac & 3 {
            0 => 9,
            1 => 3,
            2 => 5,
            _ => 7,
        };
        self.div & (1u16 << bit) != 0
    }

    /// Advance the timer by `cycles` T-cycles.
    pub fn tick(&mut self, cycles: u32)
        ensures
            *final(self) == old(self).run(cycles as nat),
    {
        let ghost start = *self;
        let mut i: u32 = 0;
        while i < cycles
            invariant
                i <= cycles,
                *self == start.run(i as nat),
            decreases cycles - i,
        {
            proof {
                lemma_run_step(start, i as nat);
            }
            let before = self.tap();
            self.div = self.div.wrapping_add(1);
            if before && !self.tap() {
                self.increment_tima();
            }
            i = i + 1;
        }
    }

    fn increment_tima(&mut self)
        ensures
            *final(self) == old(self).incremented(),
    {
        if self.tima == 255 {
            self.tima = self.tma;
            self.interrupt = true;
        } else {
            self.tima = self.tima + 1;
        }
    }

    pub fn read(&self, addr: u16) -> (v: u8)
        ensures
            v == self.read_spec(addr),
    {
        match addr {
            0xFF04 => (self.div >> 8) as u8,
            0xFF05 => self.tima,
            0xFF06 => self.tma,
            _ => self.tac | 0xF8,
        }
    }

    pub fn write(&mut self, addr: u16, val: u8)
        ensures
            *final(self) == old(self).written(addr, val),
    {
        match addr {
            0xFF04 => {
                // Resetting DIV can produce a falling edge on the tap.
                if self.tap() {
                    self.increment_tima();
                }
                self.div = 0;
            },
            0xFF05 => self.tima = val,
            0xFF06 => self.tma = val,
            _ => self.tac = val & 0x07,
        }
    }

    pub fn reset_div(&mut self)
        ensures
            *final(self) == (Timer { div: 0, ..*old(self) }),
    {
        self.div = 0;
    }
}

/// Running `n + 1` cycles is running `n` cycles and then one more.
pub proof fn lemma_run_step(t: Timer, n: nat)
    ensures
        t.run(n + 1) == t.run(n).stepped(),
    decreases n,
{
    if n == 0 {
        assert(t.run(1) == t.stepped().run(0));
    } else {
        lemma_run_step(t.stepped(), (n - 1) as nat);
        assert(t.run(n) == t.stepped().run((n - 1) as nat));
        assert(t.run(n + 1) == t.stepped().run(n));
    }
}

/// Running `a` cycles and then `b` more is running `a + b` cycles.
pub proof fn lemma_run_compose(t: Timer, a: nat, b: nat)
    ensures
        t.run(a).run(b) == t.run(a + b),
    decreases a,
{
    if a > 0 {
        lemma_run_compose(t.stepped(), (a - 1) as nat, b);
        assert(t.run(a + b) == t.stepped().run((a - 1 + b) as nat));
    }
}

/// The divider counts every cycle, wrapping at 2^16; TMA and TAC stay.
pub proof fn lemma_run_divider(t: Timer, n: nat)
    ensures
        t.run(n).div == (t.div + n) % 0x10000,
        t.run(n).tma == t.tma,
        t.run(n).tac == t.tac,
    decreases n,
{
    if n > 0 {
        lemma_run_step(t, (n - 1) as nat);
        lemma_run_divider(t, (n - 1) as nat);
    }
}

/// Cycles per TIMA increment for each TAC frequency selection: 4096 Hz,
/// 262144 Hz, 65536 Hz and 16384 Hz of the 4194304 Hz clock.
pub open spec fn tima_period(tac: u8) -> int {
    let sel = tac & 3;
    if sel == 0 {
        1024
    } else if sel == 1 {
        16
    } else if sel == 2 {
        64
    } else {
        256
    }
}

proof fn lemma_edges(d: u16, n: u16)
    by (bit_vector)
    requires
        n == (if d == 0xFFFF { 0u16 } else { (d + 1) as u16 }),
    ensures
        ((d & (1u16 << 9u16) != 0 && n & (1u16 << 9u16) == 0) == ((d + 1) % 1024 == 0))
        && ((d & (1u16 << 3u16) != 0 && n & (1u16 << 3u16) == 0) == ((d + 1) % 16 == 0))
        && ((d & (1u16 << 5u16) != 0 && n & (1u16 << 5u16) == 0) == ((d + 1) % 64 == 0))
        && ((d & (1u16 << 7u16) != 0 && n & (1u16 << 7u16) == 0) == ((d + 1) % 256 == 0)),
{
}

/// TIMA's rate: in each cycle the divider advances, and TIMA counts exactly
/// when the timer is enabled (TAC bit 2) and the divider's new count is a
/// multiple of the selected period (1024, 16, 64 or 256 cycles).
pub proof fn lemma_tima_rate(t: Timer)
    ensures
        ({
            let moved = Timer { div: ((t.div + 1) % 0x10000) as u16, ..t };
            t.stepped() == if t.tac & 4 != 0 && (t.div + 1) % tima_period(t.tac) == 0 {
                moved.incremented()
            } else {
                moved
            }
        }),
{
    let n: u16 = if t.div == 0xFFFF { 0 } else { (t.div + 1) as u16 };
    lemma_edges(t.div, n);
}

} // verus!
