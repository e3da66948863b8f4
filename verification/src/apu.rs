//! Audio Processing Unit: 2 pulse channels (sweep on ch1), wave, noise.
//!
//! The channels, frame sequencer and register file are emulated here with
//! integer state. At 48 kHz the APU records one `MixFrame` per output sample:
//! the channels' digital levels and the mixer registers at that instant.
//! Turning those into analog stereo samples is left to the host.

use vstd::prelude::*;

verus! {

pub const SAMPLE_RATE: u32 = 48000;

pub const CLOCK: u32 = 4_194_304;

/// Most frames kept unread (one second of stereo audio).
pub const MAX_FRAMES: usize = 24000;

/// Duty waveforms (12.5%, 25%, 50%, 75%), one bit per step.
pub open spec fn duty_bit(duty: u8, pos: int) -> u8 {
    let pattern: u8 = if duty == 0 {
        0b1000_0000
    } else if duty == 1 {
        0b1000_0001
    } else if duty == 2 {
        0b1110_0001
    } else {
        0b0111_1110
    };
    (pattern >> (pos as u8)) & 1
}

fn duty_step(duty: u8, pos: usize) -> (b: u8)
    requires
        duty < 4,
        pos < 8,
    ensures
        b == duty_bit(duty, pos as int),
        b <= 1,
{
    let pattern: u8 = match duty {
        0 => 0b1000_0000,
        1 => 0b1000_0001,
        2 => 0b1110_0001,
        _ => 0b0111_1110,
    };
    let b = (pattern >> pos as u8) & 1;
    proof { crate::bits::lemma_and_le_u8(pattern >> pos as u8, 1); }
    b
}

/// One output sample's worth of mixer input.
#[derive(Clone, Copy, Debug)]
pub struct MixFrame {
    /// Channel levels 0..=15 (ch1..ch4).
    pub levels: [u8; 4],
    /// Bit i set when channel i+1's DAC is on.
    pub dac_mask: u8,
    pub nr50: u8,
    pub nr51: u8,
}

#[derive(Clone, Copy, Debug)]
pub struct Envelope {
    pub initial: u8,
    pub increase: bool,
    pub period: u8,
    pub volume: u8,
    pub timer: u8,
}

impl Envelope {
    pub open spec fn wf(self) -> bool {
        self.initial <= 15 && self.volume <= 15 && self.period <= 7
    }

    pub open spec fn dac_on_spec(self) -> bool {
        self.initial != 0 || self.increase
    }

    /// An envelope at power-on: everything zero.
    pub open spec fn zero() -> Envelope {
        Envelope { initial: 0, increase: false, period: 0, volume: 0, timer: 0 }
    }

    /// After a write of `val` to the envelope register (NRx2).
    pub open spec fn written(self, val: u8) -> Envelope {
        Envelope { initial: val >> 4u8, increase: val & 0x08 != 0, period: val & 0x07, ..self }
    }

    /// After a channel trigger: volume reloads, the timer restarts.
    pub open spec fn triggered(self) -> Envelope {
        Envelope { volume: self.initial, timer: if self.period == 0 { 8 } else { self.period }, ..self }
    }

    /// After one 64 Hz envelope clock.
    pub open spec fn clocked(self) -> Envelope {
        let t: u8 = if self.timer == 0 { 0 } else { (self.timer - 1) as u8 };
        if self.period == 0 {
            self
        } else if t != 0 {
            Envelope { timer: t, ..self }
        } else {
            let v: u8 = if self.increase && self.volume < 15 {
                (self.volume + 1) as u8
            } else if !self.increase && self.volume > 0 {
                (self.volume - 1) as u8
            } else {
                self.volume
            };
            Envelope { timer: self.period, volume: v, ..self }
        }
    }

    pub fn default() -> (e: Envelope)
        ensures
            e.wf(),
            e == Envelope::zero(),
    {
        Envelope { initial: 0, increase: false, period: 0, volume: 0, timer: 0 }
    }

    fn write(&mut self, val: u8)
        requires
            old(self).wf(),
        ensures
            final(self).wf(),
            *final(self) == old(self).written(val),
    {
        self.initial = val >> 4u8;
        self.increase = val & 0x08 != 0;
        self.period = val & 0x07;
        proof { crate::bits::lemma_and_le_u8(val, 0x07); }
        assert(val >> 4u8 <= 15) by (bit_vector);
    }

    fn read(&self) -> (v: u8)
        requires
            self.wf(),
        ensures
            v == (self.initial << 4u8) | (if self.increase { 0x08u8 } else { 0 }) | self.period,
    {
        (self.initial << 4u8) | (if self.increase { 0x08u8 } else { 0 }) | self.period
    }

    fn trigger(&mut self)
        requires
            old(self).wf(),
        ensures
            final(self).wf(),
            *final(self) == old(self).triggered(),
    {
        self.volume = self.initial;
        self.timer = if self.period == 0 { 8 } else { self.period };
    }

    /// Volume envelope clock (64 Hz): every `period` clocks the volume steps
    /// toward 15 or 0.
    fn clock(&mut self)
        requires
            old(self).wf(),
        ensures
            final(self).wf(),
            *final(self) == old(self).clocked(),
    {
        if self.period == 0 {
            return;
        }
        self.timer = if self.timer == 0 { 0 } else { self.timer - 1 };
        if self.timer == 0 {
            self.timer = self.period;
            if self.increase && self.volume < 15 {
                self.volume = self.volume + 1;
            } else if !self.increase && self.volume > 0 {
                self.volume = self.volume - 1;
            }
        }
    }

    fn dac_on(&self) -> (b: bool)
        ensures
            b == self.dac_on_spec(),
    {
        self.initial != 0 || self.increase
    }
}

#[derive(Clone, Copy, Debug)]
pub struct Pulse {
    pub enabled: bool,
    pub duty: u8,
    pub duty_pos: usize,
    pub freq: u16,
    pub timer: i32,
    pub length: u16,
    pub length_enable: bool,
    pub env: Envelope,
    // sweep (channel 1 only)
    pub sweep_period: u8,
    pub sweep_negate: bool,
    pub sweep_shift: u8,
    pub sweep_timer: u8,
    pub sweep_enabled: bool,
    pub sweep_shadow: u16,
    pub sweep_negate_used: bool,
}

/// How many times a down-counting timer at `t` (after subtracting the
/// elapsed cycles) reloads with period `p` to become positive again.
pub open spec fn wraps(t: int, p: int) -> int {
    if t > 0 { 0 } else { (-t) / p + 1 }
}

proof fn lemma_wraps(t: int, p: int, i: int)
    requires
        p > 0,
        i >= 0,
        t + i * p > 0,
        i > 0 ==> t + (i - 1) * p <= 0,
    ensures
        i == wraps(t, p),
{
    if t > 0 {
        if i > 0 {
            assert((i - 1) * p >= 0) by (nonlinear_arith)
                requires i > 0, p > 0;
        }
    } else {
        assert(i > 0);
        let n = -t;
        assert(i - 1 == n / p) by (nonlinear_arith)
            requires (i - 1) * p <= n, n < i * p, p > 0, i > 0, n >= 0;
    }
}

/// Frequency timer period of a pulse channel in T-cycles.
pub open spec fn pulse_period(freq: u16) -> int {
    let p = (2048 - freq) * 4;
    if p < 4 { 4 } else { p }
}

/// Frequency sweep target: shadow ± shadow >> shift, within 16 bits.
pub open spec fn sweep_target(shadow: u16, shift: u8, negate: bool) -> u16 {
    let delta = shadow >> shift;
    if negate {
        if shadow >= delta { (shadow - delta) as u16 } else { (shadow - delta + 0x10000) as u16 }
    } else {
        if shadow + delta <= 0xFFFF { (shadow + delta) as u16 } else { (shadow + delta - 0x10000) as u16 }
    }
}

impl Pulse {
    pub open spec fn wf(self) -> bool {
        &&& self.duty < 4
        &&& self.duty_pos < 8
        &&& self.freq <= 2047
        &&& 0 < self.timer <= 8192
        &&& self.length <= 64
        &&& self.env.wf()
        &&& self.sweep_period <= 7
        &&& self.sweep_shift <= 7
    }

    pub open spec fn output_spec(self) -> u8 {
        if !self.enabled || duty_bit(self.duty, self.duty_pos as int) == 0 { 0 } else { self.env.volume }
    }

    /// After `cycles` T-cycles: each frequency-timer reload steps the duty
    /// position.
    pub open spec fn ticked(self, cycles: int) -> Pulse {
        let t = self.timer - cycles;
        let p = pulse_period(self.freq);
        let k = wraps(t, p);
        Pulse { timer: (t + k * p) as i32, duty_pos: ((self.duty_pos + k) % 8) as usize, ..self }
    }

    /// After one 256 Hz length clock: a running length counter counts down
    /// and silences the channel when it reaches zero.
    pub open spec fn length_clocked(self) -> Pulse {
        if self.length_enable && self.length > 0 {
            Pulse { length: (self.length - 1) as u16, enabled: self.enabled && self.length != 1, ..self }
        } else {
            self
        }
    }

    /// A pulse channel at power-on.
    pub open spec fn zero() -> Pulse {
        Pulse {
            enabled: false,
            duty: 0,
            duty_pos: 0,
            freq: 0,
            timer: 8192,
            length: 0,
            length_enable: false,
            env: Envelope::zero(),
            sweep_period: 0,
            sweep_negate: false,
            sweep_shift: 0,
            sweep_timer: 0,
            sweep_enabled: false,
            sweep_shadow: 0,
            sweep_negate_used: false,
        }
    }

    /// One sweep calculation: the target frequency, and the channel with
    /// an overflowing target disabled and a subtraction remembered.
    pub open spec fn swept(self) -> (Pulse, u16) {
        let new = sweep_target(self.sweep_shadow, self.sweep_shift, self.sweep_negate);
        (Pulse { enabled: self.enabled && new <= 2047, sweep_negate_used: self.sweep_negate_used || self.sweep_negate, ..self }, new)
    }

    /// After one 128 Hz sweep clock.
    pub open spec fn sweep_clocked(self) -> Pulse {
        let t: u8 = if self.sweep_timer == 0 { 0 } else { (self.sweep_timer - 1) as u8 };
        if t != 0 {
            Pulse { sweep_timer: t, ..self }
        } else {
            let p1 = Pulse { sweep_timer: if self.sweep_period == 0 { 8 } else { self.sweep_period }, ..self };
            if p1.sweep_enabled && p1.sweep_period != 0 {
                let (p2, new) = p1.swept();
                if new <= 2047 && p2.sweep_shift != 0 {
                    Pulse { sweep_shadow: new, freq: new, ..p2 }.swept().0
                } else {
                    p2
                }
            } else {
                p1
            }
        }
    }

    /// After a trigger (NRx4 bit 7); `has_sweep` for channel 1.
    pub open spec fn triggered(self, has_sweep: bool) -> Pulse {
        let p1 = Pulse {
            enabled: true,
            length: if self.length == 0 { 64 } else { self.length },
            timer: pulse_period(self.freq) as i32,
            env: self.env.triggered(),
            ..self
        };
        let p2 = if has_sweep {
            let q = Pulse {
                sweep_shadow: p1.freq,
                sweep_timer: if p1.sweep_period == 0 { 8 } else { p1.sweep_period },
                sweep_enabled: p1.sweep_period != 0 || p1.sweep_shift != 0,
                sweep_negate_used: false,
                ..p1
            };
            if q.sweep_shift != 0 { q.swept().0 } else { q }
        } else {
            p1
        };
        if !p2.env.dac_on_spec() { Pulse { enabled: false, ..p2 } } else { p2 }
    }

    /// After a write of `val` to register `reg` (0 = NRx0 .. 4 = NRx4).
    pub open spec fn reg_written(self, reg: u16, val: u8, has_sweep: bool) -> Pulse {
        if reg == 0 {
            let p = Pulse { sweep_period: (val >> 4u8) & 7, sweep_negate: val & 0x08 != 0, sweep_shift: val & 7, ..self };
            // Clearing negate after it was used disables the channel.
            if self.sweep_negate && !p.sweep_negate && self.sweep_negate_used { Pulse { enabled: false, ..p } } else { p }
        } else if reg == 1 {
            Pulse { duty: val >> 6u8, length: (64 - (val & 0x3F)) as u16, ..self }
        } else if reg == 2 {
            let p = Pulse { env: self.env.written(val), ..self };
            if !p.env.dac_on_spec() { Pulse { enabled: false, ..p } } else { p }
        } else if reg == 3 {
            Pulse { freq: (self.freq & 0x700) | (val as u16), ..self }
        } else if reg == 4 {
            let p = Pulse { freq: (self.freq & 0xFF) | (((val as u16) & 7) << 8u16), length_enable: val & 0x40 != 0, ..self };
            if val & 0x80 != 0 { p.triggered(has_sweep) } else { p }
        } else {
            self
        }
    }

    pub fn default() -> (p: Pulse)
        ensures
            p.wf(),
            p == Pulse::zero(),
    {
        Pulse {
            enabled: false,
            duty: 0,
            duty_pos: 0,
            freq: 0,
            timer: 8192,
            length: 0,
            length_enable: false,
            env: Envelope::default(),
            sweep_period: 0,
            sweep_negate: false,
            sweep_shift: 0,
            sweep_timer: 0,
            sweep_enabled: false,
            sweep_shadow: 0,
            sweep_negate_used: false,
        }
    }

    fn output(&self) -> (v: u8)
        requires
            self.wf(),
        ensures
            v == self.output_spec(),
            v <= 15,
    {
        if !self.enabled {
            return 0;
        }
        if duty_step(self.duty, self.duty_pos) == 0 { 0 } else { self.env.volume }
    }

    fn tick(&mut self, cycles: i32)
        requires
            old(self).wf(),
            0 <= cycles <= 0x7FFF_FFFF,
        ensures
            final(self).wf(),
            *final(self) == old(self).ticked(cycles as int),
    {
        let ghost start = *self;
        let ghost t0: int = self.timer - cycles;
        let ghost per: int = pulse_period(self.freq);
        let ghost mut n: int = 0;
        self.timer = self.timer - cycles;
        while self.timer <= 0
            invariant
                -0x7FFF_FFFF <= self.timer <= 8192,
                start.wf(),
                per == pulse_period(start.freq),
                4 <= per <= 8192,
                n >= 0,
                self.timer == t0 + n * per,
                n > 0 ==> t0 + (n - 1) * per <= 0,
                self.duty_pos as int == (start.duty_pos + n) % 8,
                *self == (Pulse { timer: self.timer, duty_pos: self.duty_pos, ..start }),
            decreases 0x8000_0000 - self.timer,
        {
            let p = (2048 - self.freq as i32) * 4;
            self.timer = self.timer + if p < 4 { 4 } else { p };
            self.duty_pos = (self.duty_pos + 1) % 8;
            proof {
                assert(t0 + (n + 1) * per == t0 + n * per + per) by (nonlinear_arith);
                n = n + 1;
            }
        }
        proof { lemma_wraps(t0, per, n); }
    }

    fn clock_length(&mut self)
        requires
            old(self).wf(),
        ensures
            final(self).wf(),
            *final(self) == old(self).length_clocked(),
    {
        if self.length_enable && self.length > 0 {
            self.length = self.length - 1;
            if self.length == 0 {
                self.enabled = false;
            }
        }
    }

    fn sweep_calc(&mut self) -> (new: u16)
        requires
            old(self).wf(),
        ensures
            final(self).wf(),
            (*final(self), new) == old(self).swept(),
    {
        let delta = self.sweep_shadow >> self.sweep_shift;
        let new = if self.sweep_negate {
            self.sweep_negate_used = true;
            self.sweep_shadow.wrapping_sub(delta)
        } else {
            self.sweep_shadow.wrapping_add(delta)
        };
        if new > 2047 {
            self.enabled = false;
        }
        new
    }

    fn clock_sweep(&mut self)
        requires
            old(self).wf(),
        ensures
            final(self).wf(),
            *final(self) == old(self).sweep_clocked(),
    {
        self.sweep_timer = if self.sweep_timer == 0 { 0 } else { self.sweep_timer - 1 };
        if self.sweep_timer == 0 {
            self.sweep_timer = if self.sweep_period == 0 { 8 } else { self.sweep_period };
            if self.sweep_enabled && self.sweep_period != 0 {
                let new = self.sweep_calc();
                if new <= 2047 && self.sweep_shift != 0 {
                    self.sweep_shadow = new;
                    self.freq = new;
                    self.sweep_calc();
                }
            }
        }
    }

    /// Register write (0 = NRx0 .. 4 = NRx4).
    #[verifier::rlimit(40)]
    #[verifier::spinoff_prover]
    fn write_reg(&mut self, reg: u16, val: u8, has_sweep: bool)
        requires
            old(self).wf(),
        ensures
            final(self).wf(),
            *final(self) == old(self).reg_written(reg, val, has_sweep),
    {
        match reg {
            0 => {
                let old_negate = self.sweep_negate;
                self.sweep_period = (val >> 4u8) & 7;
                self.sweep_negate = val & 0x08 != 0;
                self.sweep_shift = val & 7;
                proof { crate::bits::lemma_and_le_u8(val >> 4u8, 7); crate::bits::lemma_and_le_u8(val, 7); }
                // Clearing negate after it was used disables the channel.
                if old_negate && !self.sweep_negate && self.sweep_negate_used {
                    self.enabled = false;
                }
            },
            1 => {
                self.duty = val >> 6u8;
                proof { crate::bits::lemma_and_le_u8(val, 0x3F); }
                self.length = 64 - (val & 0x3F) as u16;
                assert(val >> 6u8 < 4) by (bit_vector);
                proof { crate::bits::lemma_and_le_u8(val, 0x3F); }
            },
            2 => {
                self.env.write(val);
                if !self.env.dac_on() {
                    self.enabled = false;
                }
            },
            3 => {
                let of = self.freq;
                let f = (of & 0x700) | val as u16;
                assert(f <= 2047) by (bit_vector) requires f == (of & 0x700) | val as u16;
                self.freq = f;
            },
            4 => {
                let of = self.freq;
                let f = (of & 0xFF) | ((val as u16 & 7) << 8u16);
                assert(f <= 2047) by (bit_vector) requires f == (of & 0xFF) | ((val as u16 & 7) << 8u16);
                self.freq = f;
                self.length_enable = val & 0x40 != 0;
                if val & 0x80 != 0 {
                    self.trigger(has_sweep);
                }
            },
            _ => {},
        }
    }

    fn trigger(&mut self, has_sweep: bool)
        requires
            old(self).wf(),
        ensures
            final(self).wf(),
            *final(self) == old(self).triggered(has_sweep),
    {
        self.enabled = true;
        if self.length == 0 {
            self.length = 64;
        }
        let p = (2048 - self.freq as i32) * 4;
        self.timer = if p < 4 { 4 } else { p };
        self.env.trigger();
        if has_sweep {
            self.sweep_shadow = self.freq;
            self.sweep_timer = if self.sweep_period == 0 { 8 } else { self.sweep_period };
            self.sweep_enabled = self.sweep_period != 0 || self.sweep_shift != 0;
            self.sweep_negate_used = false;
            if self.sweep_shift != 0 {
                self.sweep_calc();
            }
        }
        if !self.env.dac_on() {
            self.enabled = false;
        }
    }
}


#[derive(Clone, Copy, Debug)]
pub struct Wave {
    pub enabled: bool,
    pub dac: bool,
    pub freq: u16,
    pub timer: i32,
    pub length: u16,
    pub length_enable: bool,
    /// 0=mute, 1=100%, 2=50%, 3=25%.
    pub volume_shift: u8,
    pub pos: usize,
    pub sample: u8,
}

/// The 4-bit sample at position `pos` of wave RAM (high nibble first).
pub open spec fn wave_nibble(ram: Seq<u8>, pos: int) -> u8 {
    let byte = ram[pos / 2];
    if pos % 2 == 0 { byte >> 4u8 } else { byte & 0x0F }
}

/// Frequency timer period of the wave channel in T-cycles.
pub open spec fn wave_period(freq: u16) -> int {
    let p = (2048 - freq) * 2;
    if p < 2 { 2 } else { p }
}

impl Wave {
    pub open spec fn wf(self) -> bool {
        &&& self.freq <= 2047
        &&& 0 < self.timer <= 4096
        &&& self.length <= 256
        &&& self.volume_shift <= 3
        &&& self.pos < 32
        &&& self.sample <= 15
    }

    pub open spec fn output_spec(self) -> u8 {
        if !self.enabled || !self.dac || self.volume_shift == 0 {
            0
        } else {
            self.sample >> ((self.volume_shift - 1) as u8)
        }
    }

    /// After `cycles` T-cycles reading wave RAM `ram`: each reload moves to
    /// the next 4-bit sample.
    pub open spec fn ticked(self, cycles: int, ram: Seq<u8>) -> Wave {
        let t = self.timer - cycles;
        let p = wave_period(self.freq);
        let k = wraps(t, p);
        let pos = (self.pos + k) % 32;
        Wave {
            timer: (t + k * p) as i32,
            pos: pos as usize,
            sample: if k == 0 { self.sample } else { wave_nibble(ram, pos) },
            ..self
        }
    }

    /// After one 256 Hz length clock.
    pub open spec fn length_clocked(self) -> Wave {
        if self.length_enable && self.length > 0 {
            Wave { length: (self.length - 1) as u16, enabled: self.enabled && self.length != 1, ..self }
        } else {
            self
        }
    }

    /// The wave channel at power-on.
    pub open spec fn zero() -> Wave {
        Wave { enabled: false, dac: false, freq: 0, timer: 4096, length: 0, length_enable: false, volume_shift: 0, pos: 0, sample: 0 }
    }

    /// After a write of `val` to register `reg` (0 = NR30 .. 4 = NR34).
    pub open spec fn reg_written(self, reg: u16, val: u8) -> Wave {
        if reg == 0 {
            let dac = val & 0x80 != 0;
            Wave { dac, enabled: self.enabled && dac, ..self }
        } else if reg == 1 {
            Wave { length: (256 - val) as u16, ..self }
        } else if reg == 2 {
            Wave { volume_shift: (val >> 5u8) & 3, ..self }
        } else if reg == 3 {
            Wave { freq: (self.freq & 0x700) | (val as u16), ..self }
        } else if reg == 4 {
            let w = Wave { freq: (self.freq & 0xFF) | (((val as u16) & 7) << 8u16), length_enable: val & 0x40 != 0, ..self };
            if val & 0x80 != 0 {
                Wave {
                    enabled: w.dac,
                    length: if w.length == 0 { 256 } else { w.length },
                    timer: wave_period(w.freq) as i32,
                    pos: 0,
                    ..w
                }
            } else {
                w
            }
        } else {
            self
        }
    }

    pub fn default() -> (w: Wave)
        ensures
            w.wf(),
            w == Wave::zero(),
    {
        Wave {
            enabled: false,
            dac: false,
            freq: 0,
            timer: 4096,
            length: 0,
            length_enable: false,
            volume_shift: 0,
            pos: 0,
            sample: 0,
        }
    }

    fn tick(&mut self, cycles: i32, ram: &Vec<u8>)
        requires
            old(self).wf(),
            ram@.len() == 16,
            0 <= cycles <= 0x7FFF_FFFF,
        ensures
            final(self).wf(),
            *final(self) == old(self).ticked(cycles as int, ram@),
    {
        let ghost start = *self;
        let ghost t0: int = self.timer - cycles;
        let ghost per: int = wave_period(self.freq);
        let ghost mut n: int = 0;
        self.timer = self.timer - cycles;
        while self.timer <= 0
            invariant
                -0x7FFF_FFFF <= self.timer <= 4096,
                ram@.len() == 16,
                start.wf(),
                per == wave_period(start.freq),
                2 <= per <= 4096,
                n >= 0,
                self.timer == t0 + n * per,
                n > 0 ==> t0 + (n - 1) * per <= 0,
                self.pos as int == (start.pos + n) % 32,
                self.sample == (if n == 0 { start.sample } else { wave_nibble(ram@, self.pos as int) }),
                self.sample <= 15,
                *self == (Wave { timer: self.timer, pos: self.pos, sample: self.sample, ..start }),
            decreases 0x8000_0000 - self.timer,
        {
            let p = (2048 - self.freq as i32) * 2;
            self.timer = self.timer + if p < 2 { 2 } else { p };
            self.pos = (self.pos + 1) % 32;
            let byte = ram[self.pos / 2];
            self.sample = if self.pos % 2 == 0 { byte >> 4u8 } else { byte & 0x0F };
            proof { crate::bits::lemma_and_le_u8(byte, 0x0F); }
            assert(byte >> 4u8 <= 15) by (bit_vector);
            proof {
                assert(t0 + (n + 1) * per == t0 + n * per + per) by (nonlinear_arith);
                n = n + 1;
            }
        }
        proof { lemma_wraps(t0, per, n); }
    }

    fn output(&self) -> (v: u8)
        requires
            self.wf(),
        ensures
            v == self.output_spec(),
            v <= 15,
    {
        if !self.enabled || !self.dac || self.volume_shift == 0 {
            return 0;
        }
        let sh = self.volume_shift - 1;
        let v = self.sample >> sh;
        let smp = self.sample;
        assert(v <= 15) by (bit_vector)
            requires v == smp >> sh, smp <= 15;
        v
    }

    /// Register write (0 = NR30 .. 4 = NR34).
    fn write_reg(&mut self, reg: u16, val: u8)
        requires
            old(self).wf(),
        ensures
            final(self).wf(),
            *final(self) == old(self).reg_written(reg, val),
    {
        match reg {
            0 => {
                self.dac = val & 0x80 != 0;
                if !self.dac {
                    self.enabled = false;
                }
            },
            1 => self.length = 256 - val as u16,
            2 => {
                self.volume_shift = (val >> 5u8) & 3;
                proof { crate::bits::lemma_and_le_u8(val >> 5u8, 3); }
            },
            3 => {
                let of = self.freq;
                let f = (of & 0x700) | val as u16;
                assert(f <= 2047) by (bit_vector) requires f == (of & 0x700) | val as u16;
                self.freq = f;
            },
            4 => {
                let of = self.freq;
                let f = (of & 0xFF) | ((val as u16 & 7) << 8u16);
                assert(f <= 2047) by (bit_vector) requires f == (of & 0xFF) | ((val as u16 & 7) << 8u16);
                self.freq = f;
                self.length_enable = val & 0x40 != 0;
                if val & 0x80 != 0 {
                    self.enabled = self.dac;
                    if self.length == 0 {
                        self.length = 256;
                    }
                    let p = (2048 - self.freq as i32) * 2;
                    self.timer = if p < 2 { 2 } else { p };
                    self.pos = 0;
                }
            },
            _ => {},
        }
    }

    fn clock_length(&mut self)
        requires
            old(self).wf(),
        ensures
            final(self).wf(),
            *final(self) == old(self).length_clocked(),
    {
        if self.length_enable && self.length > 0 {
            self.length = self.length - 1;
            if self.length == 0 {
                self.enabled = false;
            }
        }
    }
}

#[derive(Clone, Copy, Debug)]
pub struct Noise {
    pub enabled: bool,
    pub length: u16,
    pub length_enable: bool,
    pub env: Envelope,
    pub shift: u8,
    pub width7: bool,
    pub divisor: u8,
    pub timer: i32,
    pub lfsr: u16,
}

/// One LFSR shift: bit 0 XOR bit 1 feeds bit 14 (and bit 6 in 7-bit mode).
pub open spec fn lfsr_step(l: u16, width7: bool) -> u16 {
    let x = (l ^ (l >> 1u16)) & 1;
    let n = (l >> 1u16) | (x << 14u16);
    if width7 { (n & !(1u16 << 6u16)) | (x << 6u16) } else { n }
}

/// The LFSR after `k` shifts.
pub open spec fn lfsr_run(l: u16, width7: bool, k: nat) -> u16
    decreases k,
{
    if k == 0 { l } else { lfsr_step(lfsr_run(l, width7, (k - 1) as nat), width7) }
}

/// Noise channel clock period: divisor code 0 means 8, otherwise 16 × code,
/// shifted left by the clock shift.
pub open spec fn noise_period(divisor: u8, shift: u8) -> int {
    let d: int = if divisor == 0 { 8 } else { divisor * 16 };
    d * pow2(shift as nat)
}

impl Noise {
    pub open spec fn wf(self) -> bool {
        &&& self.length <= 64
        &&& self.env.wf()
        &&& self.shift <= 15
        &&& self.divisor <= 7
        &&& 0 < self.timer <= 0x40_0000
        &&& self.lfsr < 0x8000
    }

    pub open spec fn output_spec(self) -> u8 {
        if !self.enabled || self.lfsr & 1 != 0 { 0 } else { self.env.volume }
    }

    /// After `cycles` T-cycles: each reload shifts the LFSR once.
    pub open spec fn ticked(self, cycles: int) -> Noise {
        let t = self.timer - cycles;
        let p = noise_period(self.divisor, self.shift);
        let k = wraps(t, p);
        Noise { timer: (t + k * p) as i32, lfsr: lfsr_run(self.lfsr, self.width7, k as nat), ..self }
    }

    /// After one 256 Hz length clock.
    pub open spec fn length_clocked(self) -> Noise {
        if self.length_enable && self.length > 0 {
            Noise { length: (self.length - 1) as u16, enabled: self.enabled && self.length != 1, ..self }
        } else {
            self
        }
    }

    /// The noise channel at power-on.
    pub open spec fn zero() -> Noise {
        Noise { enabled: false, length: 0, length_enable: false, env: Envelope::zero(), shift: 0, width7: false, divisor: 0, timer: 8, lfsr: 0 }
    }

    /// After a write of `val` to register `reg` (1 = NR41 .. 4 = NR44).
    pub open spec fn reg_written(self, reg: u16, val: u8) -> Noise {
        if reg == 1 {
            Noise { length: (64 - (val & 0x3F)) as u16, ..self }
        } else if reg == 2 {
            let n = Noise { env: self.env.written(val), ..self };
            if !n.env.dac_on_spec() { Noise { enabled: false, ..n } } else { n }
        } else if reg == 3 {
            Noise { shift: val >> 4u8, width7: val & 0x08 != 0, divisor: val & 7, ..self }
        } else if reg == 4 {
            let n = Noise { length_enable: val & 0x40 != 0, ..self };
            if val & 0x80 != 0 {
                Noise {
                    enabled: n.env.dac_on_spec(),
                    length: if n.length == 0 { 64 } else { n.length },
                    timer: noise_period(n.divisor, n.shift) as i32,
                    lfsr: 0x7FFF,
                    env: n.env.triggered(),
                    ..n
                }
            } else {
                n
            }
        } else {
            self
        }
    }

    pub fn default() -> (n: Noise)
        ensures
            n.wf(),
            n == Noise::zero(),
    {
        Noise {
            enabled: false,
            length: 0,
            length_enable: false,
            env: Envelope::default(),
            shift: 0,
            width7: false,
            divisor: 0,
            timer: 8,
            lfsr: 0,
        }
    }

    fn period(&self) -> (p: i32)
        requires
            self.wf(),
        ensures
            p == noise_period(self.divisor, self.shift),
            8 <= p <= 112 * 0x8000,
    {
        noise_period_of(self.divisor, self.shift)
    }

    fn tick(&mut self, cycles: i32)
        requires
            old(self).wf(),
            0 <= cycles <= 0x7FFF_FFFF,
        ensures
            final(self).wf(),
            *final(self) == old(self).ticked(cycles as int),
    {
        let ghost start = *self;
        let ghost t0: int = self.timer - cycles;
        let ghost per: int = noise_period(self.divisor, self.shift);
        let ghost mut n: int = 0;
        let period = self.period();
        self.timer = self.timer - cycles;
        while self.timer <= 0
            invariant
                -0x7FFF_FFFF <= self.timer <= 0x40_0000,
                start.wf(),
                per == noise_period(start.divisor, start.shift),
                8 <= per <= 112 * 0x8000,
                n >= 0,
                self.timer == t0 + n * per,
                n > 0 ==> t0 + (n - 1) * per <= 0,
                self.lfsr == lfsr_run(start.lfsr, start.width7, n as nat),
                self.lfsr < 0x8000,
                period == per,
                *self == (Noise { timer: self.timer, lfsr: self.lfsr, ..start }),
            decreases 0x8000_0000 - self.timer,
        {
            self.timer = self.timer + period;
            let l = self.lfsr;
            let xor = (l ^ (l >> 1u16)) & 1;
            let mut nl = (l >> 1u16) | (xor << 14u16);
            if self.width7 {
                nl = (nl & !(1u16 << 6u16)) | (xor << 6u16);
            }
            assert(nl < 0x8000) by (bit_vector)
                requires
                    l < 0x8000,
                    xor == (l ^ (l >> 1u16)) & 1,
                    nl == (l >> 1u16) | (xor << 14u16) || nl == (((l >> 1u16) | (xor << 14u16)) & !(1u16 << 6u16)) | (xor << 6u16);
            self.lfsr = nl;
            proof {
                assert(t0 + (n + 1) * per == t0 + n * per + per) by (nonlinear_arith);
                n = n + 1;
            }
        }
        proof { lemma_wraps(t0, per, n); }
    }

    fn output(&self) -> (v: u8)
        requires
            self.wf(),
        ensures
            v == self.output_spec(),
            v <= 15,
    {
        if !self.enabled || self.lfsr & 1 != 0 {
            return 0;
        }
        self.env.volume
    }

    /// Register write (1 = NR41 .. 4 = NR44).
    fn write_reg(&mut self, reg: u16, val: u8)
        requires
            old(self).wf(),
        ensures
            final(self).wf(),
            *final(self) == old(self).reg_written(reg, val),
    {
        match reg {
            1 => {
                proof { crate::bits::lemma_and_le_u8(val, 0x3F); }
                self.length = 64 - (val & 0x3F) as u16;
                proof { crate::bits::lemma_and_le_u8(val, 0x3F); }
            },
            2 => {
                self.env.write(val);
                if !self.env.dac_on() {
                    self.enabled = false;
                }
            },
            3 => {
                self.shift = val >> 4u8;
                self.width7 = val & 0x08 != 0;
                self.divisor = val & 7;
                assert(val >> 4u8 <= 15) by (bit_vector);
                proof { crate::bits::lemma_and_le_u8(val, 7); }
            },
            4 => {
                self.length_enable = val & 0x40 != 0;
                if val & 0x80 != 0 {
                    self.enabled = self.env.dac_on();
                    if self.length == 0 {
                        self.length = 64;
                    }
                    self.timer = self.period();
                    self.lfsr = 0x7FFF;
                    self.env.trigger();
                }
            },
            _ => {},
        }
    }

    fn clock_length(&mut self)
        requires
            old(self).wf(),
        ensures
            final(self).wf(),
            *final(self) == old(self).length_clocked(),
    {
        if self.length_enable && self.length > 0 {
            self.length = self.length - 1;
            if self.length == 0 {
                self.enabled = false;
            }
        }
    }
}

pub struct Apu {
    pub enabled: bool,
    pub ch1: Pulse,
    pub ch2: Pulse,
    pub ch3: Wave,
    pub ch4: Noise,
    pub wave_ram: Vec<u8>,
    pub nr50: u8,
    pub nr51: u8,
    pub frame_seq: u8,
    pub frame_timer: i32,
    /// Output-sample clock: T-cycles × SAMPLE_RATE accumulated modulo CLOCK.
    pub sample_phase: u64,
    /// Mixer input of the samples produced and not yet consumed.
    pub frames: Vec<MixFrame>,
}

impl Apu {
    pub open spec fn wf(self) -> bool {
        &&& self.ch1.wf()
        &&& self.ch2.wf()
        &&& self.ch3.wf()
        &&& self.ch4.wf()
        &&& self.wave_ram@.len() == 16
        &&& self.frame_seq < 8
        &&& 0 < self.frame_timer <= 8192
        &&& self.sample_phase < CLOCK
        &&& self.frames@.len() <= MAX_FRAMES
    }

    /// The value a CPU read of sound register `addr` returns.
    pub open spec fn reg_value(self, addr: u16) -> u8 {
        let c1 = self.ch1;
        let c2 = self.ch2;
        let c3 = self.ch3;
        let c4 = self.ch4;
        if addr == 0xFF10 {
            0x80 | (c1.sweep_period << 4u8) | (if c1.sweep_negate { 0x08u8 } else { 0 }) | c1.sweep_shift
        } else if addr == 0xFF11 {
            (c1.duty << 6u8) | 0x3F
        } else if addr == 0xFF12 {
            (c1.env.initial << 4u8) | (if c1.env.increase { 0x08u8 } else { 0 }) | c1.env.period
        } else if addr == 0xFF14 {
            0xBF | (if c1.length_enable { 0x40u8 } else { 0 })
        } else if addr == 0xFF16 {
            (c2.duty << 6u8) | 0x3F
        } else if addr == 0xFF17 {
            (c2.env.initial << 4u8) | (if c2.env.increase { 0x08u8 } else { 0 }) | c2.env.period
        } else if addr == 0xFF19 {
            0xBF | (if c2.length_enable { 0x40u8 } else { 0 })
        } else if addr == 0xFF1A {
            0x7F | (if c3.dac { 0x80u8 } else { 0 })
        } else if addr == 0xFF1C {
            0x9F | (c3.volume_shift << 5u8)
        } else if addr == 0xFF1E {
            0xBF | (if c3.length_enable { 0x40u8 } else { 0 })
        } else if addr == 0xFF21 {
            (c4.env.initial << 4u8) | (if c4.env.increase { 0x08u8 } else { 0 }) | c4.env.period
        } else if addr == 0xFF22 {
            (c4.shift << 4u8) | (if c4.width7 { 0x08u8 } else { 0 }) | c4.divisor
        } else if addr == 0xFF23 {
            0xBF | (if c4.length_enable { 0x40u8 } else { 0 })
        } else if addr == 0xFF24 {
            self.nr50
        } else if addr == 0xFF25 {
            self.nr51
        } else if addr == 0xFF26 {
            0x70 | (if self.enabled { 0x80u8 } else { 0 }) | (if c4.enabled { 0x08u8 } else { 0 })
                | (if c3.enabled { 0x04u8 } else { 0 }) | (if c2.enabled { 0x02u8 } else { 0 })
                | (if c1.enabled { 0x01u8 } else { 0 })
        } else if 0xFF30 <= addr <= 0xFF3F {
            self.wave_ram@[addr - 0xFF30]
        } else {
            0xFF
        }
    }

    /// The registers as after power-on, keeping the sample clock and the
    /// unread frames.
    pub open spec fn powered_on_state(self) -> bool {
        &&& self.enabled
        &&& self.nr50 == 0x77
        &&& self.nr51 == 0xF3
        &&& self.frame_seq == 0
        &&& self.frame_timer == 8192
        &&& !self.ch1.enabled && !self.ch2.enabled && !self.ch3.enabled && !self.ch4.enabled
        &&& self.ch4.lfsr == 0x7FFF
    }

    /// Every channel's length counter clocked.
    pub open spec fn lengths_clocked(self) -> Apu {
        Apu {
            ch1: self.ch1.length_clocked(),
            ch2: self.ch2.length_clocked(),
            ch3: self.ch3.length_clocked(),
            ch4: self.ch4.length_clocked(),
            ..self
        }
    }

    /// One step of the 512 Hz frame sequencer: lengths on steps 0, 2, 4, 6,
    /// the channel 1 sweep on steps 2 and 6, envelopes on step 7.
    pub open spec fn seq_clocked(self) -> Apu {
        let fs = self.frame_seq;
        let a = if fs == 0 || fs == 4 {
            self.lengths_clocked()
        } else if fs == 2 || fs == 6 {
            let l = self.lengths_clocked();
            Apu { ch1: l.ch1.sweep_clocked(), ..l }
        } else if fs == 7 {
            Apu {
                ch1: Pulse { env: self.ch1.env.clocked(), ..self.ch1 },
                ch2: Pulse { env: self.ch2.env.clocked(), ..self.ch2 },
                ch4: Noise { env: self.ch4.env.clocked(), ..self.ch4 },
                ..self
            }
        } else {
            self
        };
        Apu { frame_seq: ((fs + 1) % 8) as u8, ..a }
    }

    /// `k` frame-sequencer steps.
    pub open spec fn seq_run(self, k: nat) -> Apu
        decreases k,
    {
        if k == 0 { self } else { self.seq_run((k - 1) as nat).seq_clocked() }
    }

    /// All four channels advanced by `cycles` T-cycles.
    pub open spec fn channels_ticked(self, cycles: int) -> Apu {
        Apu {
            ch1: self.ch1.ticked(cycles),
            ch2: self.ch2.ticked(cycles),
            ch3: self.ch3.ticked(cycles, self.wave_ram@),
            ch4: self.ch4.ticked(cycles),
            ..self
        }
    }

    /// Channels and frame sequencer after `cycles` T-cycles (nothing runs
    /// while powered off); the sample clock and frames aside.
    pub open spec fn stepped(self, cycles: int) -> Apu {
        if !self.enabled {
            self
        } else {
            let a1 = self.channels_ticked(cycles);
            let t = a1.frame_timer - cycles;
            let k = wraps(t, 8192);
            Apu { frame_timer: (t + k * 8192) as i32, ..a1.seq_run(k as nat) }
        }
    }

    /// The power-on APU: enabled, silent channels, wave RAM cleared, the
    /// frame sequencer and sample clock at their start, no frames recorded.
    pub open spec fn fresh(self) -> bool {
        &&& self.powered_on_state()
        &&& self.wave_ram@ == Seq::new(16, |i: int| 0u8)
        &&& self.sample_phase == 0
        &&& self.frames@.len() == 0
        &&& self.ch1 == Pulse::zero() && self.ch2 == Pulse::zero() && self.ch3 == Wave::zero()
        &&& self.ch4 == (Noise { lfsr: 0x7FFF, ..Noise::zero() })
    }

    pub fn new() -> (a: Apu)
        ensures
            a.wf(),
            a.fresh(),
    {
        let a = Apu {
            enabled: true,
            ch1: Pulse::default(),
            ch2: Pulse::default(),
            ch3: Wave::default(),
            ch4: Noise { lfsr: 0x7FFF, ..Noise::default() },
            wave_ram: vec![0u8; 16],
            nr50: 0x77,
            nr51: 0xF3,
            frame_seq: 0,
            frame_timer: 8192,
            sample_phase: 0,
            frames: Vec::new(),
        };
        proof {
            assert(a.wave_ram@ =~= Seq::new(16, |i: int| 0u8));
        }
        a
    }

    /// Advance the APU by `cycles` T-cycles; every 1/48000 s of emulated time
    /// records one mixer frame (while fewer than `MAX_FRAMES` are unread).
    /// `after` is this APU after `cycles` cycles: the stepped channels and
    /// frame sequencer, the sample clock advanced, and one mixed frame
    /// appended per sample period while the buffer has room.
    pub open spec fn tick_result(self, after: Apu, cycles: int) -> bool {
        &&& after == (Apu { sample_phase: after.sample_phase, frames: after.frames, ..self.stepped(cycles) })
        &&& forall|i: int| self.frames@.len() <= i < after.frames@.len() ==> #[trigger] after.frames@[i] == self.stepped(cycles).mix_frame()
        &&& after.sample_phase as int == (self.sample_phase as int + cycles * SAMPLE_RATE as int) % CLOCK as int
        &&& after.frames@.subrange(0, self.frames@.len() as int) == self.frames@
        &&& after.frames@.len() == vstd::math::min(MAX_FRAMES as int, self.frames@.len()
            + (self.sample_phase as int + cycles * SAMPLE_RATE as int) / CLOCK as int)
    }

    /// Advance the APU by `cycles` T-cycles. The channel and frame timers
    /// count in `i32`, so a count must fit in one.
    pub fn tick(&mut self, cycles: u32)
        requires
            old(self).wf(),
            cycles <= 0x7FFF_FFFF,
        ensures
            final(self).wf(),
            *final(self) == (Apu { sample_phase: final(self).sample_phase, frames: final(self).frames, ..old(self).stepped(cycles as int) }),
            forall|i: int| old(self).frames@.len() <= i < final(self).frames@.len() ==> #[trigger] final(self).frames@[i] == old(self).stepped(cycles as int).mix_frame(),
            final(self).sample_phase as int == (old(self).sample_phase as int + cycles as int * SAMPLE_RATE as int) % CLOCK as int,
            old(self).frames@.len() <= final(self).frames@.len(),
            final(self).frames@.subrange(0, old(self).frames@.len() as int) == old(self).frames@,
            final(self).frames@.len() == vstd::math::min(MAX_FRAMES as int, old(self).frames@.len()
                + (old(self).sample_phase as int + cycles as int * SAMPLE_RATE as int) / CLOCK as int),
    {
        let c = cycles as i32;
        if self.enabled {
            self.ch1.tick(c);
            self.ch2.tick(c);
            self.ch3.tick(c, &self.wave_ram);
            self.ch4.tick(c);
            let ghost a1 = *self;
            assert(a1 == old(self).channels_ticked(cycles as int));
            let ghost t0: int = self.frame_timer - c;
            let ghost mut n: int = 0;

            self.frame_timer = self.frame_timer - c;
            while self.frame_timer <= 0
                invariant
                    -0x7FFF_FFFF <= self.frame_timer <= 8192,
                    self.ch1.wf() && self.ch2.wf() && self.ch3.wf() && self.ch4.wf(),
                    self.frame_seq < 8,
                    n >= 0,
                    self.frame_timer == t0 + n * 8192,
                    n > 0 ==> t0 + (n - 1) * 8192 <= 0,
                    *self == (Apu { frame_timer: self.frame_timer, ..a1.seq_run(n as nat) }),
                decreases 0x8000_0000 - self.frame_timer,
            {
                self.frame_timer = self.frame_timer + 8192;
                self.clock_frame_seq();
                proof { n = n + 1; }
            }
            proof {
                lemma_wraps(t0, 8192, n);
                lemma_seq_run_keeps(a1, n as nat);
            }
        }
        let ghost st = *self;
        assert(st == old(self).stepped(cycles as int));

        let ghost frames0 = self.frames@;
        let ghost total: int = self.sample_phase as int + cycles as int * SAMPLE_RATE as int;
        let mut phase: u64 = self.sample_phase + cycles as u64 * SAMPLE_RATE as u64;
        let ghost mut emitted: int = 0;
        while phase >= CLOCK as u64
            invariant
                self.ch1.wf() && self.ch2.wf() && self.ch3.wf() && self.ch4.wf(),
                self.wave_ram@.len() == 16,
                self.frame_seq < 8,
                0 < self.frame_timer <= 8192,
                self.sample_phase < CLOCK,
                self.wave_ram@ == old(self).wave_ram@,
                self.enabled == old(self).enabled,
                self.nr50 == old(self).nr50,
                self.nr51 == old(self).nr51,
                frames0 == old(self).frames@,
                *self == (Apu { frames: self.frames, ..st }),
                forall|i: int| frames0.len() <= i < self.frames@.len() ==> #[trigger] self.frames@[i] == st.mix_frame(),
                0 <= emitted,
                phase as int + emitted * CLOCK as int == total,
                self.frames@.len() == vstd::math::min(MAX_FRAMES as int, frames0.len() + emitted),
                self.frames@.subrange(0, frames0.len() as int) == frames0,
            decreases phase,
        {
            phase = phase - CLOCK as u64;
            proof { emitted = emitted + 1; }
            self.generate_frame();
        }
        self.sample_phase = phase;
        proof {
            assert(phase as int == total % CLOCK as int && emitted == total / CLOCK as int) by (nonlinear_arith)
                requires phase as int + emitted * CLOCK as int == total, 0 <= phase < CLOCK, 0 <= emitted;
        }
    }

    fn clock_frame_seq(&mut self)
        requires
            old(self).ch1.wf() && old(self).ch2.wf() && old(self).ch3.wf() && old(self).ch4.wf(),
            old(self).frame_seq < 8,
        ensures
            final(self).ch1.wf() && final(self).ch2.wf() && final(self).ch3.wf() && final(self).ch4.wf(),
            *final(self) == old(self).seq_clocked(),
    {
        match self.frame_seq {
            0 | 4 => self.clock_lengths(),
            2 | 6 => {
                self.clock_lengths();
                self.ch1.clock_sweep();
            },
            7 => {
                self.ch1.env.clock();
                self.ch2.env.clock();
                self.ch4.env.clock();
            },
            _ => {},
        }
        self.frame_seq = (self.frame_seq + 1) % 8;
    }

    fn clock_lengths(&mut self)
        requires
            old(self).ch1.wf() && old(self).ch2.wf() && old(self).ch3.wf() && old(self).ch4.wf(),
        ensures
            final(self).ch1.wf() && final(self).ch2.wf() && final(self).ch3.wf() && final(self).ch4.wf(),
            *final(self) == old(self).lengths_clocked(),
    {
        self.ch1.clock_length();
        self.ch2.clock_length();
        self.ch3.clock_length();
        self.ch4.clock_length();
    }

    /// Record the current mixer input, unless `MAX_FRAMES` are unread already.
    fn generate_frame(&mut self)
        requires
            old(self).ch1.wf() && old(self).ch2.wf() && old(self).ch3.wf() && old(self).ch4.wf(),
        ensures
            *final(self) == (Apu { frames: final(self).frames, ..*old(self) }),
            old(self).frames@.len() >= MAX_FRAMES ==> final(self).frames@ == old(self).frames@,
            old(self).frames@.len() < MAX_FRAMES ==> final(self).frames@ == old(self).frames@.push(old(self).mix_frame()),
    {
        // Cap the buffer so unread audio can't grow unbounded.
        if self.frames.len() >= MAX_FRAMES {
            return;
        }
        let levels = [self.ch1.output(), self.ch2.output(), self.ch3.output(), self.ch4.output()];
        let dac_mask: u8 = (if self.ch1.env.dac_on() && self.ch1.enabled { 1u8 } else { 0 })
            | (if self.ch2.env.dac_on() && self.ch2.enabled { 2u8 } else { 0 })
            | (if self.ch3.dac { 4u8 } else { 0 })
            | (if self.ch4.env.dac_on() && self.ch4.enabled { 8u8 } else { 0 });
        self.frames.push(MixFrame { levels, dac_mask, nr50: self.nr50, nr51: self.nr51 });
    }

    pub fn read(&self, addr: u16) -> (v: u8)
        requires
            self.wf(),
        ensures
            v == self.reg_value(addr),
    {
        match addr {
            0xFF10 => {
                0x80 | (self.ch1.sweep_period << 4u8) | (if self.ch1.sweep_negate { 0x08u8 } else { 0 }) | self.ch1.sweep_shift
            },
            0xFF11 => (self.ch1.duty << 6u8) | 0x3F,
            0xFF12 => self.ch1.env.read(),
            0xFF13 => 0xFF,
            0xFF14 => 0xBF | (if self.ch1.length_enable { 0x40u8 } else { 0 }),
            0xFF16 => (self.ch2.duty << 6u8) | 0x3F,
            0xFF17 => self.ch2.env.read(),
            0xFF18 => 0xFF,
            0xFF19 => 0xBF | (if self.ch2.length_enable { 0x40u8 } else { 0 }),
            0xFF1A => 0x7F | (if self.ch3.dac { 0x80u8 } else { 0 }),
            0xFF1B => 0xFF,
            0xFF1C => 0x9F | (self.ch3.volume_shift << 5u8),
            0xFF1D => 0xFF,
            0xFF1E => 0xBF | (if self.ch3.length_enable { 0x40u8 } else { 0 }),
            0xFF20 => 0xFF,
            0xFF21 => self.ch4.env.read(),
            0xFF22 => (self.ch4.shift << 4u8) | (if self.ch4.width7 { 0x08u8 } else { 0 }) | self.ch4.divisor,
            0xFF23 => 0xBF | (if self.ch4.length_enable { 0x40u8 } else { 0 }),
            0xFF24 => self.nr50,
            0xFF25 => self.nr51,
            0xFF26 => {
                0x70 | (if self.enabled { 0x80u8 } else { 0 }) | (if self.ch4.enabled { 0x08u8 } else { 0 })
                    | (if self.ch3.enabled { 0x04u8 } else { 0 }) | (if self.ch2.enabled { 0x02u8 } else { 0 })
                    | (if self.ch1.enabled { 0x01u8 } else { 0 })
            },
            0xFF30..=0xFF3F => self.wave_ram[(addr - 0xFF30) as usize],
            _ => 0xFF,
        }
    }

    /// Whether a write to `addr` reaches the APU: with the APU powered off
    /// only the power register and wave RAM accept writes.
    pub open spec fn write_accepted(self, addr: u16) -> bool {
        self.enabled || addr == 0xFF26 || (0xFF30 <= addr <= 0xFF3F)
    }

    /// The APU after a write of `val` to register `addr` other than wave
    /// RAM: with the power off only NR52 is written; powering off clears
    /// every register (wave RAM, the sample clock and unread frames stay).
    pub open spec fn written(self, addr: u16, val: u8) -> Apu {
        let on = val & 0x80 != 0;
        if !self.write_accepted(addr) {
            self
        } else if 0xFF10 <= addr <= 0xFF23 {
            self.channel_written(addr, val)
        } else if addr == 0xFF24 {
            Apu { nr50: val, ..self }
        } else if addr == 0xFF25 {
            Apu { nr51: val, ..self }
        } else if addr == 0xFF26 {
            if self.enabled && !on {
                Apu {
                    ch1: Pulse::zero(),
                    ch2: Pulse::zero(),
                    ch3: Wave::zero(),
                    ch4: Noise { lfsr: 0x7FFF, ..Noise::zero() },
                    frame_seq: 0,
                    frame_timer: 8192,
                    enabled: false,
                    nr50: 0,
                    nr51: 0,
                    ..self
                }
            } else if !self.enabled && on {
                Apu { enabled: true, frame_seq: 0, ..self }
            } else {
                self
            }
        } else {
            self
        }
    }

    pub fn write(&mut self, addr: u16, val: u8)
        requires
            old(self).wf(),
        ensures
            final(self).wf(),
            0xFF30 <= addr <= 0xFF3F ==> *final(self) == (Apu { wave_ram: final(self).wave_ram, ..*old(self) })
                && final(self).wave_ram@ == old(self).wave_ram@.update(addr - 0xFF30, val),
            !(0xFF30 <= addr <= 0xFF3F) ==> *final(self) == old(self).written(addr, val),
    {
        if !self.enabled && addr != 0xFF26 && !(0xFF30 <= addr && addr <= 0xFF3F) {
            return;
        }
        if 0xFF10 <= addr && addr <= 0xFF23 {
            self.write_channel(addr, val);
            return;
        }
        match addr {
            0xFF24 => self.nr50 = val,
            0xFF25 => self.nr51 = val,
            0xFF26 => {
                let on = val & 0x80 != 0;
                if self.enabled && !on {
                    // Power off clears all registers.
                    let fresh = Apu::new();
                    self.ch1 = fresh.ch1;
                    self.ch2 = fresh.ch2;
                    self.ch3 = fresh.ch3;
                    self.ch4 = fresh.ch4;
                    self.frame_seq = fresh.frame_seq;
                    self.frame_timer = fresh.frame_timer;
                    self.enabled = false;
                    self.nr50 = 0;
                    self.nr51 = 0;
                } else if !self.enabled && on {
                    self.enabled = true;
                    self.frame_seq = 0;
                }
            },
            0xFF30..=0xFF3F => self.wave_ram.set((addr - 0xFF30) as usize, val),
            _ => {},
        }
    }

    /// Channel register writes (0xFF10..=0xFF23).
    fn write_channel(&mut self, addr: u16, val: u8)
        requires
            old(self).wf(),
            0xFF10 <= addr <= 0xFF23,
        ensures
            final(self).wf(),
            *final(self) == old(self).channel_written(addr, val),
    {
        if addr <= 0xFF14 {
            self.ch1.write_reg(addr - 0xFF10, val, true);
        } else if 0xFF16 <= addr && addr <= 0xFF19 {
            self.ch2.write_reg(addr - 0xFF15, val, false);
        } else if 0xFF1A <= addr && addr <= 0xFF1E {
            self.ch3.write_reg(addr - 0xFF1A, val);
        } else if 0xFF20 <= addr {
            self.ch4.write_reg(addr - 0xFF1F, val);
        }
    }

    /// The APU after a write of `val` to channel register `addr`.
    pub open spec fn channel_written(self, addr: u16, val: u8) -> Apu {
        if 0xFF10 <= addr <= 0xFF14 {
            Apu { ch1: self.ch1.reg_written((addr - 0xFF10) as u16, val, true), ..self }
        } else if 0xFF16 <= addr <= 0xFF19 {
            Apu { ch2: self.ch2.reg_written((addr - 0xFF15) as u16, val, false), ..self }
        } else if 0xFF1A <= addr <= 0xFF1E {
            Apu { ch3: self.ch3.reg_written((addr - 0xFF1A) as u16, val), ..self }
        } else if 0xFF20 <= addr <= 0xFF23 {
            Apu { ch4: self.ch4.reg_written((addr - 0xFF1F) as u16, val), ..self }
        } else {
            self
        }
    }

    /// The mixer input at this instant.
    pub open spec fn mix_frame(self) -> MixFrame {
        MixFrame {
            levels: [self.ch1.output_spec(), self.ch2.output_spec(), self.ch3.output_spec(), self.ch4.output_spec()],
            dac_mask: (if self.ch1.env.dac_on_spec() && self.ch1.enabled { 1u8 } else { 0 })
                | (if self.ch2.env.dac_on_spec() && self.ch2.enabled { 2u8 } else { 0 })
                | (if self.ch3.dac { 4u8 } else { 0 })
                | (if self.ch4.env.dac_on_spec() && self.ch4.enabled { 8u8 } else { 0 }),
            nr50: self.nr50,
            nr51: self.nr51,
        }
    }
}

/// The volume envelope's direction: writing NRx2 = `val` sets the starting
/// volume to its high nibble, the direction to bit 3 (1 = up) and the period
/// to bits 0-2; then each envelope clock that ends a period (period not 0,
/// timer at 0 or 1) moves the volume one step up toward 15 when the direction
/// is up and one step down toward 0 when it is down; every other clock
/// leaves the volume alone. Volume never moves against the direction. A
/// period ends every `period` clocks (the timer counts down and reloads);
/// a trigger restarts at the starting volume.
pub proof fn lemma_envelope_direction(e: Envelope, val: u8)
    requires
        e.wf(),
    ensures
        e.written(val).initial == val / 16,
        e.written(val).increase == ((val / 8) % 2 == 1),
        e.written(val).period == val % 8,
        e.period != 0 && e.timer <= 1 && e.increase ==> e.clocked().volume == (if e.volume == 15 { 15 } else { e.volume + 1 }),
        e.period != 0 && e.timer <= 1 && !e.increase ==> e.clocked().volume == (if e.volume == 0 { 0 } else { e.volume - 1 }),
        e.period == 0 || e.timer > 1 ==> e.clocked().volume == e.volume,
        e.increase ==> e.volume <= e.clocked().volume <= 15,
        !e.increase ==> e.clocked().volume <= e.volume,
        e.period == 0 ==> e.clocked() == e,
        e.period != 0 && e.timer > 1 ==> e.clocked().timer == e.timer - 1,
        e.period != 0 && e.timer <= 1 ==> e.clocked().timer == e.period,
        e.clocked().initial == e.initial && e.clocked().increase == e.increase && e.clocked().period == e.period,
        e.triggered().volume == e.initial,
        e.triggered().timer == (if e.period == 0 { 8 } else { e.period as int }),
{
    assert((val >> 4u8) as u16 == (val / 16) as u16 && ((val & 0x08 != 0) == ((val / 8) % 2 == 1))
        && (val & 0x07) as u16 == (val % 8) as u16) by (bit_vector);
}

/// Unread audio never grows without bound: however many cycles a tick
/// covers, it leaves at most `MAX_FRAMES` frames, keeps the unread ones in
/// front, and leaves a full buffer as it was.
pub proof fn lemma_tick_frames_capped(a: Apu, after: Apu, cycles: int)
    requires
        a.wf(),
        cycles >= 0,
        a.tick_result(after, cycles),
    ensures
        after.frames@.len() <= MAX_FRAMES,
        a.frames@.len() <= after.frames@.len(),
        after.frames@.subrange(0, a.frames@.len() as int) == a.frames@,
        a.frames@.len() == MAX_FRAMES ==> after.frames@ == a.frames@,
{
    let p = (a.sample_phase as int + cycles * SAMPLE_RATE as int) / CLOCK as int;
    assert(p >= 0) by (nonlinear_arith)
        requires
            a.sample_phase as int >= 0,
            cycles >= 0,
            SAMPLE_RATE as int > 0,
            CLOCK as int > 0,
            p == (a.sample_phase as int + cycles * SAMPLE_RATE as int) / CLOCK as int;
    if a.frames@.len() == MAX_FRAMES {
        assert(after.frames@ =~= after.frames@.subrange(0, a.frames@.len() as int));
    }
}

/// The frame sequencer touches only the channels and its own step.
proof fn lemma_seq_run_keeps(a: Apu, k: nat)
    ensures
        a.seq_run(k).wave_ram == a.wave_ram,
        a.seq_run(k).sample_phase == a.sample_phase,
        a.seq_run(k).frames == a.frames,
        a.seq_run(k).enabled == a.enabled,
        a.seq_run(k).nr50 == a.nr50,
        a.seq_run(k).nr51 == a.nr51,
        a.seq_run(k).frame_timer == a.frame_timer,
    decreases k,
{
    if k > 0 {
        lemma_seq_run_keeps(a, (k - 1) as nat);
    }
}

/// 2 to the power `n`.
pub open spec fn pow2(n: nat) -> nat
    decreases n,
{
    if n == 0 { 1 } else { 2 * pow2((n - 1) as nat) }
}

proof fn lemma_pow2_bounds(n: nat)
    requires
        n <= 15,
    ensures
        1 <= pow2(n) <= 0x8000,
    decreases 15 - n,
{
    if n < 15 {
        lemma_pow2_bounds(n + 1);
        assert(pow2(n + 1) == 2 * pow2(n));
    } else {
        reveal_with_fuel(pow2, 16);
        assert(pow2(15) == 0x8000);
    }
}

/// `d << sh` for a small positive `d`.
fn shl_i32(d: i32, sh: i32) -> (p: i32)
    requires
        8 <= d <= 112,
        0 <= sh <= 15,
    ensures
        p == d * pow2(sh as nat),
        8 <= p <= 112 * 0x8000,
{
    let mut p: i32 = d;
    let mut k: i32 = 0;
    assert(d * pow2(0) == d) by (nonlinear_arith)
        requires pow2(0) == 1;
    while k < sh
        invariant
            0 <= k <= sh <= 15,
            8 <= d <= 112,
            p == d * pow2(k as nat),
        decreases sh - k,
    {
        proof {
            lemma_pow2_bounds((k + 1) as nat);
            assert(pow2((k + 1) as nat) == 2 * pow2(k as nat));
            assert(d * pow2((k + 1) as nat) <= 112 * 0x8000) by (nonlinear_arith)
                requires 8 <= d <= 112, pow2((k + 1) as nat) <= 0x8000;
            assert(d * pow2((k + 1) as nat) == 2 * (d * pow2(k as nat))) by (nonlinear_arith)
                requires pow2((k + 1) as nat) == 2 * pow2(k as nat);
        }
        p = p * 2;
        k = k + 1;
    }
    proof {
        lemma_pow2_bounds(sh as nat);
        assert(8 <= d * pow2(sh as nat) <= 112 * 0x8000) by (nonlinear_arith)
            requires 8 <= d <= 112, 1 <= pow2(sh as nat) <= 0x8000;
    }
    p
}

/// Noise clock period for a divisor code and clock shift.
fn noise_period_of(divisor: u8, shift: u8) -> (p: i32)
    requires
        divisor <= 7,
        shift <= 15,
    ensures
        p == noise_period(divisor, shift),
        8 <= p <= 112 * 0x8000,
{
    let d: i32 = if divisor == 0 { 8 } else { divisor as i32 * 16 };
    shl_i32(d, shift as i32)
}

} // verus!
