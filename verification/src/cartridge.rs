//! Cartridge: ROM header parsing, MBC1/MBC2/MBC3(+RTC)/MBC5 mappers,
//! battery-backed RAM and the MBC3 real-time clock.

use vstd::prelude::*;

verus! {

#[derive(Clone, Copy, PartialEq, Eq, Structural, Debug)]
pub enum Mbc {
    RomOnly,
    Mbc1,
    Mbc2,
    Mbc3,
    Mbc5,
}

/// Why a ROM image was refused.
#[derive(Clone, Copy, PartialEq, Eq, Structural, Debug)]
pub enum CartError {
    /// Shorter than the 0x150-byte header area.
    TooSmall,
    /// The cartridge-type byte at 0x147 names no supported mapper.
    UnsupportedType(u8),
}

/// Mapper, battery and clock for a cartridge-type byte, if supported.
pub open spec fn cart_kind(t: u8) -> Option<(Mbc, bool, bool)> {
    if t == 0x00 || t == 0x08 {
        Some((Mbc::RomOnly, false, false))
    } else if t == 0x09 {
        Some((Mbc::RomOnly, true, false))
    } else if t == 0x01 || t == 0x02 {
        Some((Mbc::Mbc1, false, false))
    } else if t == 0x03 {
        Some((Mbc::Mbc1, true, false))
    } else if t == 0x05 {
        Some((Mbc::Mbc2, false, false))
    } else if t == 0x06 {
        Some((Mbc::Mbc2, true, false))
    } else if t == 0x0F || t == 0x10 {
        Some((Mbc::Mbc3, true, true))
    } else if t == 0x11 || t == 0x12 {
        Some((Mbc::Mbc3, false, false))
    } else if t == 0x13 {
        Some((Mbc::Mbc3, true, false))
    } else if t == 0x19 || t == 0x1A || t == 0x1C || t == 0x1D {
        Some((Mbc::Mbc5, false, false))
    } else if t == 0x1B || t == 0x1E {
        Some((Mbc::Mbc5, true, false))
    } else {
        None
    }
}

/// ROM bank count from the header size code (0..=8 means 32 KiB << code),
/// otherwise from the image length; at least two banks.
pub open spec fn rom_bank_count_spec(code: u8, len: nat) -> nat {
    let n: nat = if code == 0 {
        2
    } else if code == 1 {
        4
    } else if code == 2 {
        8
    } else if code == 3 {
        16
    } else if code == 4 {
        32
    } else if code == 5 {
        64
    } else if code == 6 {
        128
    } else if code == 7 {
        256
    } else if code == 8 {
        512
    } else {
        len / 0x4000
    };
    if n < 2 {
        2
    } else {
        n
    }
}

/// External RAM bank count from the header RAM-size code.
pub open spec fn ram_bank_count_spec(mbc: Mbc, code: u8) -> nat {
    if mbc == Mbc::Mbc2 {
        1
    } else if code == 2 {
        1
    } else if code == 3 {
        4
    } else if code == 4 {
        16
    } else if code == 5 {
        8
    } else {
        0
    }
}

/// Size in bytes of the external RAM (MBC2 holds 512 half-bytes).
pub open spec fn ram_size_spec(mbc: Mbc, code: u8) -> nat {
    if mbc == Mbc::Mbc2 {
        0x200
    } else {
        ram_bank_count_spec(mbc, code) * 0x2000
    }
}

pub open spec fn printable(b: u8) -> bool {
    0x20 <= b < 0x7F
}

/// The title: header bytes up to the first NUL, keeping printable ASCII only.
pub open spec fn title_bytes(s: Seq<u8>) -> Seq<u8>
    decreases s.len(),
{
    if s.len() == 0 || s[0] == 0 {
        Seq::empty()
    } else if printable(s[0]) {
        seq![s[0]] + title_bytes(s.drop_first())
    } else {
        title_bytes(s.drop_first())
    }
}

pub open spec fn ascii_chars(s: Seq<u8>) -> Seq<char> {
    s.map_values(|b: u8| b as char)
}

#[derive(Clone, Copy, Debug)]
pub struct Rtc {
    pub seconds: u8,
    pub minutes: u8,
    pub hours: u8,
    /// 9 bits; overflow sets the day carry.
    pub days: u16,
    pub halted: bool,
    pub day_carry: bool,
    /// Unix time when the registers were last brought up to date.
    pub base: u64,
}

impl Rtc {
    pub open spec fn total_seconds(self) -> int {
        self.seconds + self.minutes * 60 + self.hours * 3600 + self.days * 86400
    }

    /// The clock brought forward to wall-clock time `now`: a running clock
    /// adds the seconds elapsed since `base`; `base` becomes `now`.
    pub open spec fn advanced(self, now: u64) -> Rtc {
        if self.halted || now <= self.base {
            Rtc { base: now, ..self }
        } else {
            let t = self.total_seconds() + (now - self.base);
            Rtc {
                seconds: (t % 60) as u8,
                minutes: ((t / 60) % 60) as u8,
                hours: ((t / 3600) % 24) as u8,
                days: ((t / 86400) % 512) as u16,
                day_carry: self.day_carry || t / 86400 > 0x1FF,
                base: now,
                ..self
            }
        }
    }

    /// The 44-byte clock image: registers, then the base timestamp at 8..16.
    pub open spec fn image(self) -> Seq<u8> {
        seq![self.seconds, self.minutes, self.hours, (self.days & 0xFF) as u8,
            ((self.days >> 8) as u8) | (if self.halted { 0x40u8 } else { 0 }) | (if self.day_carry { 0x80u8 } else { 0 }),
            0u8, 0u8, 0u8] + vstd::bytes::spec_u64_to_le_bytes(self.base) + Seq::new(28, |i: int| 0u8)
    }

    /// Registers decoded from a clock image (values clamped to their range),
    /// before catching up with wall-clock time.
    pub open spec fn decoded(data: Seq<u8>) -> Rtc {
        Rtc {
            seconds: if data[0] > 59 { 59 } else { data[0] },
            minutes: if data[1] > 59 { 59 } else { data[1] },
            hours: if data[2] > 23 { 23 } else { data[2] },
            days: (data[3] as u16) | (((data[4] & 1) as u16) << 8),
            halted: data[4] & 0x40 != 0,
            day_carry: data[4] & 0x80 != 0,
            base: vstd::bytes::spec_u64_from_le_bytes(data.subrange(8, 16)),
        }
    }

    pub fn zeroed() -> (r: Rtc)
        ensures
            r.seconds == 0 && r.minutes == 0 && r.hours == 0 && r.days == 0,
            !r.halted && !r.day_carry && r.base == 0,
    {
        Rtc { seconds: 0, minutes: 0, hours: 0, days: 0, halted: false, day_carry: false, base: 0 }
    }

    /// Seconds since the Unix epoch (0 if the system clock is before it).
    fn now() -> u64 {
        match since_unix_epoch(&system_now()) {
            Ok(d) => whole_seconds(&d),
            Err(_) => 0,
        }
    }

    /// Bring the registers forward to wall-clock time `now`.
    pub fn advance_to(&mut self, now: u64)
        ensures
            *final(self) == old(self).advanced(now),
    {
        if self.halted || now <= self.base {
            self.base = now;
            return;
        }
        let elapsed = now - self.base;
        self.base = now;
        let total: u128 = self.seconds as u128 + self.minutes as u128 * 60 + self.hours as u128
            * 3600 + self.days as u128 * 86400 + elapsed as u128;
        self.seconds = (total % 60) as u8;
        self.minutes = ((total / 60) % 60) as u8;
        self.hours = ((total / 3600) % 24) as u8;
        if total / 86400 > 0x1FF {
            self.day_carry = true;
        }
        self.days = ((total / 86400) % 512) as u16;
    }

    /// Advance registers by the wall-clock time elapsed since `base`.
    fn tick_to_now(&mut self)
        ensures
            *final(self) == old(self).advanced(final(self).base),
    {
        let now = Self::now();
        self.advance_to(now);
    }

    /// 44-byte serialisation (register values + base timestamp).
    pub fn serialize(&self) -> (out: [u8; 44])
        ensures
            out@ == self.image(),
    {
        let b = vstd::bytes::u64_to_le_bytes(self.base);
        let hi: u8 = (self.days >> 8) as u8 | (if self.halted { 0x40u8 } else { 0 }) | (if self.day_carry { 0x80u8 } else { 0 });
        let out: [u8; 44] = [
            self.seconds, self.minutes, self.hours, (self.days & 0xFF) as u8, hi, 0, 0, 0,
            b[0], b[1], b[2], b[3], b[4], b[5], b[6], b[7],
            0, 0, 0, 0, 0, 0, 0, 0, 0, 0, 0, 0, 0, 0, 0, 0, 0, 0, 0, 0, 0, 0, 0, 0, 0, 0, 0, 0,
        ];
        proof {
            vstd::bytes::lemma_auto_spec_u64_to_from_le_bytes();
            assert(out@ =~= self.image());
        }
        out
    }

    /// Restore from a clock image (ignored when shorter than 16 bytes), then
    /// catch up with wall-clock time.
    pub fn deserialize(&mut self, data: &[u8])
        ensures
            data@.len() < 16 ==> *final(self) == *old(self),
            data@.len() >= 16 ==> *final(self) == Rtc::decoded(data@).advanced(final(self).base),
    {
        if data.len() < 16 {
            return;
        }
        self.seconds = if data[0] > 59 { 59 } else { data[0] };
        self.minutes = if data[1] > 59 { 59 } else { data[1] };
        self.hours = if data[2] > 23 { 23 } else { data[2] };
        self.days = data[3] as u16 | ((data[4] as u16 & 1) << 8);
        self.halted = data[4] & 0x40 != 0;
        self.day_carry = data[4] & 0x80 != 0;
        self.base = vstd::bytes::u64_from_le_bytes(vstd::slice::slice_subrange(data, 8, 16));
        let d3 = data[3];
        let d4 = data[4];
        assert((d3 as u16 | ((d4 as u16 & 1) << 8)) == ((d3 as u16) | (((d4 & 1) as u16) << 8))) by (bit_vector);
        assert(*self == Rtc::decoded(data@));
        self.tick_to_now();
    }
}


pub struct Cartridge {
    pub rom: Vec<u8>,
    pub ram: Vec<u8>,
    pub mbc: Mbc,
    pub has_battery: bool,
    pub has_rtc: bool,
    pub title: String,
    pub cgb: bool,
    pub rom_bank_count: usize,
    pub ram_bank_count: usize,
    // Mapper state
    pub ram_enabled: bool,
    /// Current switchable bank.
    pub rom_bank: usize,
    /// Selected RAM bank (or RTC register 0x08..0x0C for MBC3).
    pub ram_bank: usize,
    /// MBC1 upper 2 bits / MBC5 9th bit.
    pub bank_hi: usize,
    /// MBC1 banking mode.
    pub mbc1_mode: bool,
    pub rtc: Rtc,
    pub rtc_latched: Rtc,
    pub rtc_latch_state: u8,
    pub ram_dirty: bool,
}

#[verifier::external_type_specification]
#[verifier::external_body]
pub struct ExSystemTime(std::time::SystemTime);

#[verifier::external_type_specification]
#[verifier::external_body]
pub struct ExSystemTimeError(std::time::SystemTimeError);

/// The machine's current time, `std::time::SystemTime::now`. It depends on
/// the machine's clock, so nothing is claimed of it.
#[verifier::external_body]
fn system_now() -> std::time::SystemTime {
    std::time::SystemTime::now()
}

/// The time elapsed from the Unix epoch to `t`, by
/// `SystemTime::duration_since(UNIX_EPOCH)` (an error when `t` lies before
/// the epoch). Nothing is claimed: the types are opaque here.
#[verifier::external_body]
fn since_unix_epoch(t: &std::time::SystemTime) -> Result<std::time::Duration, std::time::SystemTimeError> {
    t.duration_since(std::time::UNIX_EPOCH)
}

/// The whole seconds of `d`, by `Duration::as_secs`. Nothing is claimed: the
/// duration is opaque here.
#[verifier::external_body]
fn whole_seconds(d: &std::time::Duration) -> u64 {
    d.as_secs()
}

/// Builds the title string from printable ASCII bytes with
/// `String::from_utf8`. Claimed: the string's characters are those bytes
/// (ASCII is valid UTF-8, so the conversion succeeds).
#[verifier::external_body]
fn ascii_string(bytes: Vec<u8>) -> (s: String)
    requires
        forall|i: int| 0 <= i < bytes@.len() ==> printable(#[trigger] bytes@[i]),
    ensures
        s@ == ascii_chars(bytes@),
{
    match String::from_utf8(bytes) {
        Ok(s) => s,
        Err(_) => String::new(),
    }
}

impl Cartridge {
    /// Bank sizes and RAM size agree with each other.
    pub open spec fn wf(self) -> bool {
        &&& self.rom@.len() >= 0x150
        &&& cart_kind(self.rom@[0x147]) == Some((self.mbc, self.has_battery, self.has_rtc))
        &&& self.ram_bank_count == ram_bank_count_spec(self.mbc, self.rom@[0x149])
        &&& self.rom_bank_count >= 2
        &&& self.ram_bank_count <= 16
        &&& (self.mbc == Mbc::Mbc2 ==> self.ram_bank_count == 1 && self.ram@.len() == 0x200)
        &&& (self.mbc != Mbc::Mbc2 ==> self.ram@.len() == self.ram_bank_count * 0x2000)
    }

    /// The cartridge a ROM image describes, with its mapper, clock registers
    /// and latch in power-on state; its RAM is not fixed here.
    pub open spec fn powered_from(self, rom: Seq<u8>) -> bool {
        let kind = cart_kind(rom[0x147]);
        &&& kind is Some
        &&& self.rom@ == rom
        &&& self.mbc == kind.unwrap().0
        &&& self.has_battery == kind.unwrap().1
        &&& self.has_rtc == kind.unwrap().2
        &&& self.rom_bank_count == rom_bank_count_spec(rom[0x148], rom.len())
        &&& self.ram_bank_count == ram_bank_count_spec(self.mbc, rom[0x149])
        &&& self.title@ == ascii_chars(title_bytes(rom.subrange(0x134, 0x144)))
        &&& self.cgb == (rom[0x143] & 0x80 != 0)
        &&& !self.ram_enabled
        &&& self.rom_bank == 1
        &&& self.ram_bank == 0
        &&& self.bank_hi == 0
        &&& !self.mbc1_mode
        &&& self.rtc.seconds == 0 && self.rtc.minutes == 0 && self.rtc.hours == 0
        &&& self.rtc.days == 0 && !self.rtc.halted && !self.rtc.day_carry
        &&& self.rtc_latched == Rtc { seconds: 0, minutes: 0, hours: 0, days: 0, halted: false, day_carry: false, base: 0 }
        &&& self.rtc_latch_state == 0xFF
        &&& !self.ram_dirty
    }

    /// The cartridge a ROM image describes, freshly loaded: power-on state
    /// with its RAM all 0xFF.
    pub open spec fn loaded_from(self, rom: Seq<u8>) -> bool {
        &&& self.powered_from(rom)
        &&& self.ram@ == Seq::new(ram_size_spec(self.mbc, rom[0x149]), |i: int| 0xFFu8)
    }

    pub fn new(rom: Vec<u8>) -> (r: Result<Cartridge, CartError>)
        ensures
            rom@.len() < 0x150 ==> r == Err::<Cartridge, CartError>(CartError::TooSmall),
            rom@.len() >= 0x150 && cart_kind(rom@[0x147]) is None ==> r == Err::<Cartridge, CartError>(CartError::UnsupportedType(rom@[0x147])),
            rom@.len() >= 0x150 && cart_kind(rom@[0x147]) is Some ==> (r matches Ok(c) && c.wf() && c.loaded_from(rom@)),
    {
        if rom.len() < 0x150 {
            return Err(CartError::TooSmall);
        }
        let cart_type = rom[0x147];
        let (mbc, has_battery, has_rtc) = match cart_type {
            0x00 | 0x08 | 0x09 => (Mbc::RomOnly, cart_type == 0x09, false),
            0x01 | 0x02 => (Mbc::Mbc1, false, false),
            0x03 => (Mbc::Mbc1, true, false),
            0x05 => (Mbc::Mbc2, false, false),
            0x06 => (Mbc::Mbc2, true, false),
            0x0F | 0x10 => (Mbc::Mbc3, true, true),
            0x11 | 0x12 => (Mbc::Mbc3, false, false),
            0x13 => (Mbc::Mbc3, true, false),
            0x19 | 0x1A | 0x1C | 0x1D => (Mbc::Mbc5, false, false),
            0x1B | 0x1E => (Mbc::Mbc5, true, false),
            other => return Err(CartError::UnsupportedType(other)),
        };

        let n: usize = match rom[0x148] {
            0 => 2,
            1 => 4,
            2 => 8,
            3 => 16,
            4 => 32,
            5 => 64,
            6 => 128,
            7 => 256,
            8 => 512,
            _ => rom.len() / 0x4000,
        };
        let rom_bank_count: usize = if n < 2 { 2 } else { n };

        let ram_bank_count: usize = if mbc == Mbc::Mbc2 {
            1  // built-in 512x4 bits, held in one 0x200 "bank"
        } else {
            match rom[0x149] {
                2 => 1,
                3 => 4,
                4 => 16,
                5 => 8,
                _ => 0,
            }
        };
        let ram_size: usize = if mbc == Mbc::Mbc2 { 0x200 } else { ram_bank_count * 0x2000 };

        let title = ascii_string(header_title(&rom));
        let cgb = rom[0x143] & 0x80 != 0;
        let ram = vec![0xFFu8; ram_size];
        proof {
            assert(ram@ =~= Seq::new(ram_size_spec(mbc, rom@[0x149]), |i: int| 0xFFu8));
        }
        Ok(Cartridge {
            rom,
            ram,
            mbc,
            has_battery,
            has_rtc,
            title,
            cgb,
            rom_bank_count,
            ram_bank_count,
            ram_enabled: false,
            rom_bank: 1,
            ram_bank: 0,
            bank_hi: 0,
            mbc1_mode: false,
            rtc: Rtc { base: Rtc::now(), ..Rtc::zeroed() },
            rtc_latched: Rtc::zeroed(),
            rtc_latch_state: 0xFF,
            ram_dirty: false,
        })
    }

    /// Everything but the RAM contents, the live clock and the dirty flag
    /// is the same in `self` and `other`.
    pub open spec fn mapper_unchanged(self, other: Cartridge) -> bool {
        &&& self.rom@ == other.rom@
        &&& self.mbc == other.mbc
        &&& self.has_battery == other.has_battery
        &&& self.has_rtc == other.has_rtc
        &&& self.title@ == other.title@
        &&& self.cgb == other.cgb
        &&& self.rom_bank_count == other.rom_bank_count
        &&& self.ram_bank_count == other.ram_bank_count
        &&& self.ram_enabled == other.ram_enabled
        &&& self.rom_bank == other.rom_bank
        &&& self.ram_bank == other.ram_bank
        &&& self.bank_hi == other.bank_hi
        &&& self.mbc1_mode == other.mbc1_mode
        &&& self.rtc_latched == other.rtc_latched
        &&& self.rtc_latch_state == other.rtc_latch_state
    }

    /// The switchable ROM bank mapped at 0x4000..0x7FFF.
    pub open spec fn effective_rom_bank_spec(self) -> int {
        let bank: usize = if self.mbc == Mbc::Mbc1 {
            let lo: usize = if self.rom_bank == 0 { 1 } else { self.rom_bank & 0x1F };
            (self.bank_hi << 5usize) | lo
        } else if self.mbc == Mbc::Mbc5 {
            (self.bank_hi << 8usize) | self.rom_bank
        } else if self.rom_bank == 0 {
            1
        } else {
            self.rom_bank
        };
        bank as int % self.rom_bank_count as int
    }

    /// Offset into the ROM image that a CPU address maps to (ROM space is
    /// 0x0000..=0x7FFF).
    pub open spec fn rom_index(self, addr: u16) -> int {
        if addr <= 0x3FFF {
            // MBC1 mode 1: the fixed bank is also affected by the high bits.
            let bank: int = if self.mbc == Mbc::Mbc1 && self.mbc1_mode {
                ((self.bank_hi << 5usize) as int) % self.rom_bank_count as int
            } else {
                0
            };
            bank * 0x4000 + addr
        } else {
            self.effective_rom_bank_spec() * 0x4000 + (addr - 0x4000)
        }
    }

    /// Byte read from ROM space; past the end of the image reads 0xFF.
    pub open spec fn rom_byte(self, addr: u16) -> u8 {
        let i = self.rom_index(addr);
        if i < self.rom@.len() {
            self.rom@[i]
        } else {
            0xFF
        }
    }

    /// Mapper state after a write of `val` to ROM space at `addr`; `now` is the
    /// wall-clock time used when an MBC3 clock latch happens.
    pub open spec fn rom_written(self, addr: u16, val: u8, now: u64) -> Cartridge {
        if self.mbc == Mbc::Mbc1 {
            if addr <= 0x1FFF {
                Cartridge { ram_enabled: val & 0x0F == 0x0A, ..self }
            } else if addr <= 0x3FFF {
                Cartridge { rom_bank: (val & 0x1F) as usize, ..self }
            } else if addr <= 0x5FFF {
                Cartridge { bank_hi: (val & 0x03) as usize, ..self }
            } else {
                Cartridge { mbc1_mode: val & 1 != 0, ..self }
            }
        } else if self.mbc == Mbc::Mbc2 {
            if addr <= 0x3FFF {
                if addr & 0x0100 == 0 {
                    Cartridge { ram_enabled: val & 0x0F == 0x0A, ..self }
                } else {
                    Cartridge { rom_bank: (val & 0x0F) as usize, ..self }
                }
            } else {
                self
            }
        } else if self.mbc == Mbc::Mbc3 {
            if addr <= 0x1FFF {
                Cartridge { ram_enabled: val & 0x0F == 0x0A, ..self }
            } else if addr <= 0x3FFF {
                Cartridge { rom_bank: (val & 0x7F) as usize, ..self }
            } else if addr <= 0x5FFF {
                Cartridge { ram_bank: (val & 0x0F) as usize, ..self }
            } else if self.rtc_latch_state == 0 && val == 1 {
                // Latch clock on 0x00 -> 0x01 write sequence.
                let r = self.rtc.advanced(now);
                Cartridge { rtc: r, rtc_latched: r, rtc_latch_state: val, ..self }
            } else {
                Cartridge { rtc_latch_state: val, ..self }
            }
        } else if self.mbc == Mbc::Mbc5 {
            if addr <= 0x1FFF {
                Cartridge { ram_enabled: val & 0x0F == 0x0A, ..self }
            } else if addr <= 0x2FFF {
                Cartridge { rom_bank: val as usize, ..self }
            } else if addr <= 0x3FFF {
                Cartridge { bank_hi: (val & 1) as usize, ..self }
            } else if addr <= 0x5FFF {
                Cartridge { ram_bank: (val & 0x0F) as usize, ..self }
            } else {
                self
            }
        } else {
            self
        }
    }

    /// Whether the MBC3 clock registers are mapped into RAM space.
    pub open spec fn rtc_selected(self) -> bool {
        self.mbc == Mbc::Mbc3 && self.ram_bank >= 0x08
    }

    /// External RAM bank mapped at 0xA000..0xBFFF.
    pub open spec fn effective_ram_bank_spec(self) -> int {
        let bank: int = if self.mbc == Mbc::Mbc1 {
            if self.mbc1_mode { self.bank_hi as int } else { 0 }
        } else {
            self.ram_bank as int
        };
        bank % (if self.ram_bank_count == 0 { 1 } else { self.ram_bank_count as int })
    }

    /// Offset into the RAM buffer for RAM-space offset `addr` (banked RAM).
    pub open spec fn ram_index(self, addr: u16) -> int {
        if self.mbc == Mbc::Mbc2 {
            (addr & 0x1FF) as int
        } else {
            self.effective_ram_bank_spec() * 0x2000 + addr
        }
    }

    /// The clock register selected by `ram_bank`, as latched.
    pub open spec fn rtc_register(self) -> u8 {
        let r = self.rtc_latched;
        if self.ram_bank == 0x08 {
            r.seconds
        } else if self.ram_bank == 0x09 {
            r.minutes
        } else if self.ram_bank == 0x0A {
            r.hours
        } else if self.ram_bank == 0x0B {
            (r.days & 0xFF) as u8
        } else if self.ram_bank == 0x0C {
            ((r.days >> 8) as u8 & 1) | (if r.halted { 0x40u8 } else { 0 }) | (if r.day_carry { 0x80u8 } else { 0 })
        } else {
            0xFF
        }
    }

    /// Byte read from external RAM space at offset `addr` (0..0x2000).
    pub open spec fn ram_byte(self, addr: u16) -> u8 {
        if !self.ram_enabled {
            0xFF
        } else if self.mbc == Mbc::Mbc2 {
            self.ram@[self.ram_index(addr)] | 0xF0
        } else if self.rtc_selected() {
            self.rtc_register()
        } else if self.ram_bank_count == 0 {
            0xFF
        } else {
            self.ram@[self.ram_index(addr)]
        }
    }

    /// A RAM-space access at `addr` that reaches banked RAM stays within the
    /// buffer (accesses at offsets below 0x2000 always do).
    pub open spec fn ram_offset_ok(self, addr: u16) -> bool {
        self.ram_write_stores() && self.mbc != Mbc::Mbc2 ==> self.ram_index(addr) < self.ram@.len()
    }

    /// Whether a write of RAM space stores into the RAM buffer.
    pub open spec fn ram_write_stores(self) -> bool {
        self.ram_enabled && !self.rtc_selected() && (self.mbc == Mbc::Mbc2 || self.ram_bank_count > 0)
    }

    /// RAM contents after a write of `val` to RAM-space offset `addr`.
    pub open spec fn ram_written(self, addr: u16, val: u8) -> Seq<u8> {
        if !self.ram_write_stores() {
            self.ram@
        } else if self.mbc == Mbc::Mbc2 {
            self.ram@.update(self.ram_index(addr), val | 0xF0)
        } else {
            self.ram@.update(self.ram_index(addr), val)
        }
    }

    /// The live clock after a write of `val` to the selected clock register,
    /// caught up to time `now` first.
    pub open spec fn rtc_written(self, val: u8, now: u64) -> Rtc {
        let r = self.rtc.advanced(now);
        if self.ram_bank == 0x08 {
            Rtc { seconds: val & 0x3F, ..r }
        } else if self.ram_bank == 0x09 {
            Rtc { minutes: val & 0x3F, ..r }
        } else if self.ram_bank == 0x0A {
            Rtc { hours: val & 0x1F, ..r }
        } else if self.ram_bank == 0x0B {
            Rtc { days: (r.days & 0x100) | (val as u16), ..r }
        } else if self.ram_bank == 0x0C {
            Rtc {
                days: (r.days & 0xFF) | (((val & 1) as u16) << 8),
                halted: val & 0x40 != 0,
                day_carry: val & 0x80 != 0,
                ..r
            }
        } else {
            r
        }
    }

    /// `after` is `self` after a CPU write of `val` at RAM-space offset `addr`.
    pub open spec fn ram_write_result(self, after: Cartridge, addr: u16, val: u8) -> bool {
        &&& after.mapper_unchanged(self)
        &&& after.ram@ == self.ram_written(addr, val)
        &&& after.rtc == (if self.ram_enabled && self.rtc_selected() {
            self.rtc_written(val, after.rtc.base)
        } else {
            self.rtc
        })
        &&& after.ram_dirty == (self.ram_dirty || (self.ram_enabled && (self.mbc == Mbc::Mbc2
            || self.rtc_selected() || self.ram_bank_count > 0)))
    }

    pub fn read_rom(&self, addr: u16) -> (v: u8)
        requires
            self.wf(),
        ensures
            v == self.rom_byte(addr),
    {
        let idx: u128 = if addr <= 0x3FFF {
            let bank: usize = if self.mbc == Mbc::Mbc1 && self.mbc1_mode {
                (self.bank_hi << 5usize) % self.rom_bank_count
            } else {
                0
            };
            bank as u128 * 0x4000 + addr as u128
        } else {
            let bank = self.effective_rom_bank();
            bank as u128 * 0x4000 + (addr as u128 - 0x4000)
        };
        if idx < self.rom.len() as u128 {
            self.rom[idx as usize]
        } else {
            0xFF
        }
    }

    fn effective_rom_bank(&self) -> (b: usize)
        requires
            self.wf(),
        ensures
            b as int == self.effective_rom_bank_spec(),
    {
        let bank: usize = match self.mbc {
            Mbc::Mbc1 => {
                let lo: usize = if self.rom_bank == 0 { 1 } else { self.rom_bank & 0x1F };
                (self.bank_hi << 5usize) | lo
            },
            Mbc::Mbc5 => (self.bank_hi << 8usize) | self.rom_bank,
            _ => {
                if self.rom_bank == 0 {
                    1
                } else {
                    self.rom_bank
                }
            },
        };
        bank % self.rom_bank_count
    }

    #[verifier::rlimit(60)]
    #[verifier::spinoff_prover]
    pub fn write_rom(&mut self, addr: u16, val: u8)
        requires
            old(self).wf(),
        ensures
            final(self).wf(),
            *final(self) == old(self).rom_written(addr, val, final(self).rtc.base),
    {
        match self.mbc {
            Mbc::RomOnly => {},
            Mbc::Mbc1 => {
                if addr <= 0x1FFF {
                    self.ram_enabled = val & 0x0F == 0x0A;
                } else if addr <= 0x3FFF {
                    self.rom_bank = (val & 0x1F) as usize;
                } else if addr <= 0x5FFF {
                    self.bank_hi = (val & 0x03) as usize;
                } else {
                    self.mbc1_mode = val & 1 != 0;
                }
            },
            Mbc::Mbc2 => {
                if addr <= 0x3FFF {
                    if addr & 0x0100 == 0 {
                        self.ram_enabled = val & 0x0F == 0x0A;
                    } else {
                        self.rom_bank = (val & 0x0F) as usize;
                    }
                }
            },
            Mbc::Mbc3 => {
                if addr <= 0x1FFF {
                    self.ram_enabled = val & 0x0F == 0x0A;
                } else if addr <= 0x3FFF {
                    self.rom_bank = (val & 0x7F) as usize;
                } else if addr <= 0x5FFF {
                    self.ram_bank = (val & 0x0F) as usize;
                } else {
                    // Latch clock on 0x00 -> 0x01 write sequence.
                    if self.rtc_latch_state == 0x00 && val == 0x01 {
                        self.rtc.tick_to_now();
                        self.rtc_latched = self.rtc;
                    }
                    self.rtc_latch_state = val;
                }
            },
            Mbc::Mbc5 => {
                if addr <= 0x1FFF {
                    self.ram_enabled = val & 0x0F == 0x0A;
                } else if addr <= 0x2FFF {
                    self.rom_bank = val as usize;
                } else if addr <= 0x3FFF {
                    self.bank_hi = (val & 1) as usize;
                } else if addr <= 0x5FFF {
                    self.ram_bank = (val & 0x0F) as usize;
                }
            },
        }
    }

    pub fn read_ram(&self, addr: u16) -> (v: u8)
        requires
            self.wf(),
            self.ram_offset_ok(addr),
        ensures
            v == self.ram_byte(addr),
    {
        if !self.ram_enabled {
            return 0xFF;
        }
        match self.mbc {
            Mbc::Mbc2 => {
                let i = (addr & 0x1FF) as usize;
                proof { crate::bits::lemma_and_le_u16(addr, 0x1FF); }
                self.ram[i] | 0xF0
            },
            Mbc::Mbc3 if self.ram_bank >= 0x08 => {
                let r = &self.rtc_latched;
                match self.ram_bank {
                    0x08 => r.seconds,
                    0x09 => r.minutes,
                    0x0A => r.hours,
                    0x0B => (r.days & 0xFF) as u8,
                    0x0C => {
                        (r.days >> 8) as u8 & 1 | (if r.halted { 0x40u8 } else { 0 }) | (if r.day_carry { 0x80u8 } else { 0 })
                    },
                    _ => 0xFF,
                }
            },
            _ => {
                if self.ram_bank_count == 0 {
                    return 0xFF;
                }
                let bank = self.effective_ram_bank();
                self.ram[bank * 0x2000 + addr as usize]
            },
        }
    }

    pub fn write_ram(&mut self, addr: u16, val: u8)
        requires
            old(self).wf(),
            old(self).ram_offset_ok(addr),
        ensures
            final(self).wf(),
            old(self).ram_write_result(*final(self), addr, val),
    {
        if !self.ram_enabled {
            return;
        }
        match self.mbc {
            Mbc::Mbc2 => {
                let i = (addr & 0x1FF) as usize;
                proof { crate::bits::lemma_and_le_u16(addr, 0x1FF); }
                self.ram.set(i, val | 0xF0);
                self.ram_dirty = true;
            },
            Mbc::Mbc3 if self.ram_bank >= 0x08 => {
                self.rtc.tick_to_now();
                match self.ram_bank {
                    0x08 => self.rtc.seconds = val & 0x3F,
                    0x09 => self.rtc.minutes = val & 0x3F,
                    0x0A => self.rtc.hours = val & 0x1F,
                    0x0B => self.rtc.days = (self.rtc.days & 0x100) | val as u16,
                    0x0C => {
                        self.rtc.days = (self.rtc.days & 0xFF) | ((val as u16 & 1) << 8);
                        self.rtc.halted = val & 0x40 != 0;
                        self.rtc.day_carry = val & 0x80 != 0;
                        assert(((val as u16 & 1) << 8) == (((val & 1) as u16) << 8)) by (bit_vector);
                    },
                    _ => {},
                }
                self.ram_dirty = true;
            },
            _ => {
                if self.ram_bank_count == 0 {
                    return;
                }
                let bank = self.effective_ram_bank();
                self.ram.set(bank * 0x2000 + addr as usize, val);
                self.ram_dirty = true;
            },
        }
    }

    fn effective_ram_bank(&self) -> (b: usize)
        requires
            self.wf(),
        ensures
            b as int == self.effective_ram_bank_spec(),
            self.ram_bank_count > 0 ==> b < self.ram_bank_count,
    {
        let bank = match self.mbc {
            Mbc::Mbc1 => {
                if self.mbc1_mode {
                    self.bank_hi
                } else {
                    0
                }
            },
            _ => self.ram_bank,
        };
        bank % (if self.ram_bank_count == 0 { 1 } else { self.ram_bank_count })
    }

    /// Copy a battery save into RAM (as much as fits); clears the dirty flag.
    pub fn load_battery(&mut self, data: &[u8])
        requires
            old(self).wf(),
        ensures
            final(self).wf(),
            final(self).mapper_unchanged(*old(self)),
            final(self).rtc == old(self).rtc,
            !final(self).ram_dirty,
            ({
                let n = if data@.len() < old(self).ram@.len() { data@.len() } else { old(self).ram@.len() };
                final(self).ram@ == data@.subrange(0, n as int) + old(self).ram@.subrange(n as int, old(self).ram@.len() as int)
            }),
    {
        let n = if data.len() < self.ram.len() { data.len() } else { self.ram.len() };
        let ghost start = self.ram@;
        let ghost before = *self;
        let mut i: usize = 0;
        while i < n
            invariant
                i <= n,
                self.mapper_unchanged(before),
                self.rtc == before.rtc,
                before.wf(),
                before.ram@ == start,
                n <= data@.len(),
                n <= start.len(),
                self.ram@.len() == start.len(),
                forall|k: int| 0 <= k < i ==> self.ram@[k] == data@[k],
                forall|k: int| i <= k < start.len() ==> self.ram@[k] == start[k],
            decreases n - i,
        {
            self.ram.set(i, data[i]);
            i = i + 1;
        }
        self.ram_dirty = false;
        proof {
            assert(self.ram@ =~= data@.subrange(0, n as int) + start.subrange(n as int, start.len() as int));
        }
    }

    /// Bring the clock up to date and return its 44-byte image.
    pub fn rtc_serialize(&mut self) -> (out: [u8; 44])
        requires
            old(self).wf(),
        ensures
            final(self).wf(),
            final(self).mapper_unchanged(*old(self)),
            final(self).ram@ == old(self).ram@,
            final(self).ram_dirty == old(self).ram_dirty,
            final(self).rtc == old(self).rtc.advanced(final(self).rtc.base),
            out@ == final(self).rtc.image(),
    {
        self.rtc.tick_to_now();
        self.rtc.serialize()
    }

    pub fn rtc_deserialize(&mut self, data: &[u8])
        requires
            old(self).wf(),
        ensures
            final(self).wf(),
            final(self).mapper_unchanged(*old(self)),
            final(self).ram@ == old(self).ram@,
            final(self).ram_dirty == old(self).ram_dirty,
            data@.len() < 16 ==> final(self).rtc == old(self).rtc,
            data@.len() >= 16 ==> final(self).rtc == Rtc::decoded(data@).advanced(final(self).rtc.base),
    {
        self.rtc.deserialize(data);
    }
}

/// The title bytes of a ROM header (0x134..0x144).
fn header_title(rom: &Vec<u8>) -> (out: Vec<u8>)
    requires
        rom@.len() >= 0x150,
    ensures
        out@ == title_bytes(rom@.subrange(0x134, 0x144)),
        forall|i: int| 0 <= i < out@.len() ==> printable(#[trigger] out@[i]),
{
    let ghost whole = rom@.subrange(0x134, 0x144);
    let mut out: Vec<u8> = Vec::new();
    let mut i: usize = 0x134;
    while i < 0x144
        invariant
            0x134 <= i <= 0x144,
            rom@.len() >= 0x150,
            whole == rom@.subrange(0x134, 0x144),
            title_bytes(whole) == out@ + title_bytes(rom@.subrange(i as int, 0x144)),
            forall|k: int| 0 <= k < out@.len() ==> printable(#[trigger] out@[k]),
        decreases 0x144 - i,
    {
        let b = rom[i];
        let ghost rest = rom@.subrange(i as int, 0x144);
        assert(rest.drop_first() =~= rom@.subrange(i + 1, 0x144));
        if b == 0 {
            assert(title_bytes(rest) == Seq::<u8>::empty());
            assert(out@ + Seq::<u8>::empty() =~= out@);
            return out;
        }
        if 0x20 <= b && b < 0x7F {
            assert(out@ + title_bytes(rest) =~= out@.push(b) + title_bytes(rest.drop_first()));
            out.push(b);
        }
        i = i + 1;
    }
    assert(rom@.subrange(0x144, 0x144) =~= Seq::<u8>::empty());
    assert(out@ + Seq::<u8>::empty() =~= out@);
    out
}

/// Every RAM-space offset below 0x2000 lies within the buffer.
pub proof fn lemma_ram_offset_ok(c: Cartridge, addr: u16)
    requires
        c.wf(),
        addr < 0x2000,
    ensures
        c.ram_offset_ok(addr),
{
    if c.ram_write_stores() && c.mbc != Mbc::Mbc2 {
        let b = c.effective_ram_bank_spec();
        assert(0 <= b < c.ram_bank_count);
        assert(b * 0x2000 + 0x2000 <= c.ram_bank_count * 0x2000) by (nonlinear_arith)
            requires 0 <= b < c.ram_bank_count;
    }
}

/// Battery RAM keeps what is written: after a write that reaches the RAM
/// buffer, reading the same address returns the written byte (MBC2 RAM is
/// four bits wide, so its upper nibble reads as ones).
pub proof fn lemma_ram_write_then_read(before: Cartridge, after: Cartridge, addr: u16, val: u8)
    requires
        before.wf(),
        addr < 0x2000,
        before.ram_write_stores(),
        before.ram_write_result(after, addr, val),
    ensures
        after.ram_byte(addr) == (if before.mbc == Mbc::Mbc2 { val | 0xF0 } else { val }),
{
    let i = before.ram_index(addr);
    if before.mbc == Mbc::Mbc2 {
        assert((addr & 0x1FF) < 0x200) by (bit_vector);
        assert(((val | 0xF0) | 0xF0) == (val | 0xF0)) by (bit_vector);
    } else {
        let b = before.effective_ram_bank_spec();
        assert(0 <= b < before.ram_bank_count);
        assert(b * 0x2000 + 0x2000 <= before.ram_bank_count * 0x2000) by (nonlinear_arith)
            requires 0 <= b < before.ram_bank_count;
    }
    assert(0 <= i < before.ram@.len());
}

// ---------------------------------------------------------------------------
// ROM images and zip archives

/// Why no ROM could be taken from a zip archive.
#[derive(Clone, Copy, PartialEq, Eq, Structural, Debug)]
pub enum ZipError {
    /// No end-of-central-directory record.
    NoEndRecord,
    /// The entry's local header is missing or damaged.
    BadLocalHeader,
    /// The entry's data runs past the end of the archive.
    Truncated,
    /// The DEFLATE stream could not be decoded.
    InflateFailed,
    /// A compression method other than stored (0) or deflate (8).
    UnsupportedMethod(u16),
    /// No entry named `*.gb` or `*.gbc`.
    NoRomEntry,
    /// A central-directory entry name runs past the end of the archive.
    BadEntryName,
}

/// Where a ROM entry's data lies in an archive and how it is stored.
#[derive(Clone, Copy, PartialEq, Eq, Structural, Debug)]
pub enum ZipMember {
    Stored { start: usize, size: usize },
    Deflated { start: usize, size: usize },
}

/// Local file header signature, "PK\x03\x04".
pub open spec fn local_sig() -> Seq<u8> {
    seq![0x50u8, 0x4Bu8, 0x03u8, 0x04u8]
}

/// Central directory entry signature, "PK\x01\x02".
pub open spec fn central_sig() -> Seq<u8> {
    seq![0x50u8, 0x4Bu8, 0x01u8, 0x02u8]
}

/// End-of-central-directory signature, "PK\x05\x06".
pub open spec fn end_sig() -> Seq<u8> {
    seq![0x50u8, 0x4Bu8, 0x05u8, 0x06u8]
}

/// Whether the four bytes at `p` are `sig`.
pub open spec fn sig_at(d: Seq<u8>, p: int, sig: Seq<u8>) -> bool {
    0 <= p && p + 4 <= d.len() && d.subrange(p, p + 4) == sig
}

/// Data that starts like a zip archive.
pub open spec fn is_zip(d: Seq<u8>) -> bool {
    sig_at(d, 0, local_sig())
}

/// The byte at `i`, or 0 past either end.
pub open spec fn byte_at(d: Seq<u8>, i: int) -> u8 {
    if 0 <= i < d.len() { d[i] } else { 0 }
}

/// Little-endian 16-bit field at `i` (missing bytes read as 0).
pub open spec fn le16(d: Seq<u8>, i: nat) -> nat {
    byte_at(d, i as int) as nat + 256 * byte_at(d, i + 1int) as nat
}

/// Little-endian 32-bit field at `i` (missing bytes read as 0).
pub open spec fn le32(d: Seq<u8>, i: nat) -> nat {
    le16(d, i) + 65536 * le16(d, i + 2)
}

/// The last position at or below `p` where `sig` starts.
pub open spec fn last_sig(d: Seq<u8>, sig: Seq<u8>, p: int) -> Option<nat>
    decreases p + 1,
{
    if p < 0 {
        None
    } else if sig_at(d, p, sig) {
        Some(p as nat)
    } else {
        last_sig(d, sig, p - 1)
    }
}

/// ASCII letters folded to lower case.
pub open spec fn ascii_lower(b: u8) -> u8 {
    if 0x41 <= b <= 0x5A { (b + 32) as u8 } else { b }
}

/// `name` ends with `suffix` (given in lower case), ignoring ASCII case.
pub open spec fn ends_with_ci(name: Seq<u8>, suffix: Seq<u8>) -> bool {
    &&& name.len() >= suffix.len()
    &&& forall|i: int| 0 <= i < suffix.len() ==> ascii_lower(#[trigger] name[name.len() - suffix.len() + i]) == suffix[i]
}

/// A file name ending in `.gb` or `.gbc`, in any case.
pub open spec fn is_rom_name(name: Seq<u8>) -> bool {
    ends_with_ci(name, seq![0x2Eu8, 0x67u8, 0x62u8]) || ends_with_ci(name, seq![0x2Eu8, 0x67u8, 0x62u8, 0x63u8])
}

/// Outcome of walking the central directory.
pub enum DirScan {
    /// The first ROM entry starts at this offset.
    Found(nat),
    /// The walk ended (entry count exhausted or no entry signature) without one.
    NotFound,
    /// An entry's name runs past the end of the data.
    NameOverrun,
}

/// Walk at most `left` central directory entries from `off`.
pub open spec fn scan_dir(d: Seq<u8>, off: nat, left: nat) -> DirScan
    decreases left,
{
    if left == 0 {
        DirScan::NotFound
    } else if d.len() < off + 46 || !sig_at(d, off as int, central_sig()) {
        DirScan::NotFound
    } else {
        let name_len = le16(d, off + 28);
        if off + 46 + name_len > d.len() {
            DirScan::NameOverrun
        } else if is_rom_name(d.subrange((off + 46) as int, (off + 46 + name_len) as int)) {
            DirScan::Found(off)
        } else {
            scan_dir(d, off + 46 + name_len + le16(d, off + 30) + le16(d, off + 32), (left - 1) as nat)
        }
    }
}

/// The directory walk of an archive, from its last end record.
pub open spec fn dir_scan(d: Seq<u8>) -> Option<DirScan> {
    match last_sig(d, end_sig(), d.len() - 4) {
        None => None,
        Some(e) => Some(scan_dir(d, le32(d, e + 16), le16(d, e + 10))),
    }
}

/// Every entry name the directory walk looks at lies within the data.
/// The first `*.gb`/`*.gbc` entry of an archive, located through its central
/// directory and local header.
pub open spec fn rom_entry(d: Seq<u8>) -> Result<ZipMember, ZipError> {
    match dir_scan(d) {
        None => Err(ZipError::NoEndRecord),
        Some(DirScan::Found(off)) => {
            let method = le16(d, off + 10);
            let size = le32(d, off + 20);
            let lo = le32(d, off + 42);
            if d.len() < lo + 30 || !sig_at(d, lo as int, local_sig()) {
                Err(ZipError::BadLocalHeader)
            } else {
                let start = lo + 30 + le16(d, lo + 26) + le16(d, lo + 28);
                if start + size > d.len() {
                    Err(ZipError::Truncated)
                } else if method == 0 {
                    Ok(ZipMember::Stored { start: start as usize, size: size as usize })
                } else if method == 8 {
                    Ok(ZipMember::Deflated { start: start as usize, size: size as usize })
                } else {
                    Err(ZipError::UnsupportedMethod(method as u16))
                }
            }
        },
        Some(DirScan::NameOverrun) => Err(ZipError::BadEntryName),
        Some(DirScan::NotFound) => Err(ZipError::NoRomEntry),
    }
}

/// What `flate2`'s raw DEFLATE decoder yields for a compressed stream: the
/// decompressed bytes, or nothing when the stream is invalid.
pub uninterp spec fn inflated(compressed: Seq<u8>) -> Option<Seq<u8>>;

/// Decompresses a raw DEFLATE stream by reading a
/// `flate2::read::DeflateDecoder` over it to the end. Claimed: the result is
/// `inflated` of the input, a function of the compressed bytes alone.
#[verifier::external_body]
fn inflate(compressed: &[u8]) -> (r: Option<Vec<u8>>)
    ensures
        match r {
            Some(v) => inflated(compressed@) == Some(v@),
            None => inflated(compressed@) is None,
        },
{
    let mut out = Vec::new();
    match std::io::Read::read_to_end(&mut flate2::read::DeflateDecoder::new(compressed), &mut out) {
        Ok(_) => Some(out),
        Err(_) => None,
    }
}

fn byte_or_zero(data: &[u8], i: u128) -> (b: u8)
    ensures
        b == byte_at(data@, i as int),
{
    if i < data.len() as u128 {
        data[i as usize]
    } else {
        0
    }
}

fn rd16(data: &[u8], i: u128) -> (v: u128)
    requires
        i < 0x1_0000_0000_0000_0000_0000,
    ensures
        v == le16(data@, i as nat),
{
    byte_or_zero(data, i) as u128 + 256 * byte_or_zero(data, i + 1) as u128
}

fn rd32(data: &[u8], i: u128) -> (v: u128)
    requires
        i < 0x8000_0000_0000_0000_0000,
    ensures
        v == le32(data@, i as nat),
{
    rd16(data, i) + 65536 * rd16(data, i + 2)
}

/// Whether the four bytes at `p` are "PK" followed by `b2`, `b3`.
fn sig_matches(data: &[u8], p: u128, b2: u8, b3: u8) -> (r: bool)
    requires
        p < 0x1_0000_0000_0000_0000_0000,
    ensures
        r == sig_at(data@, p as int, seq![0x50u8, 0x4Bu8, b2, b3]),
{
    if p + 4 > data.len() as u128 {
        return false;
    }
    let q = p as usize;
    let r = data[q] == 0x50 && data[q + 1] == 0x4B && data[q + 2] == b2 && data[q + 3] == b3;
    assert(r == (data@.subrange(p as int, p + 4) =~= seq![0x50u8, 0x4Bu8, b2, b3]));
    r
}

/// Whether a file name ends in `.gb` or `.gbc`, in any case.
fn rom_name(name: &[u8]) -> (r: bool)
    ensures
        r == is_rom_name(name@),
{
    let n = name.len();
    let gb = n >= 3 && lower_byte(name[n - 3]) == 0x2E && lower_byte(name[n - 2]) == 0x67
        && lower_byte(name[n - 1]) == 0x62;
    let gbc = n >= 4 && lower_byte(name[n - 4]) == 0x2E && lower_byte(name[n - 3]) == 0x67
        && lower_byte(name[n - 2]) == 0x62 && lower_byte(name[n - 1]) == 0x63;
    proof {
        let s3 = seq![0x2Eu8, 0x67u8, 0x62u8];
        let s4 = seq![0x2Eu8, 0x67u8, 0x62u8, 0x63u8];
        if ends_with_ci(name@, s3) {
            assert(ascii_lower(name@[n - 3 + 0]) == s3[0]);
            assert(ascii_lower(name@[n - 3 + 1]) == s3[1]);
            assert(ascii_lower(name@[n - 3 + 2]) == s3[2]);
        }
        if gb {
            assert forall|i: int| 0 <= i < s3.len() implies ascii_lower(#[trigger] name@[name@.len() - s3.len() + i]) == s3[i] by {
                assert(i == 0 || i == 1 || i == 2);
            }
        }
        if ends_with_ci(name@, s4) {
            assert(ascii_lower(name@[n - 4 + 0]) == s4[0]);
            assert(ascii_lower(name@[n - 4 + 1]) == s4[1]);
            assert(ascii_lower(name@[n - 4 + 2]) == s4[2]);
            assert(ascii_lower(name@[n - 4 + 3]) == s4[3]);
        }
        if gbc {
            assert forall|i: int| 0 <= i < s4.len() implies ascii_lower(#[trigger] name@[name@.len() - s4.len() + i]) == s4[i] by {
                assert(i == 0 || i == 1 || i == 2 || i == 3);
            }
        }
    }
    gb || gbc
}

fn lower_byte(b: u8) -> (r: u8)
    ensures
        r == ascii_lower(b),
{
    if 0x41 <= b && b <= 0x5A { b + 32 } else { b }
}

/// Position of the last end-of-central-directory signature.
fn find_end_record(data: &[u8]) -> (r: Option<usize>)
    ensures
        r matches Some(p) ==> last_sig(data@, end_sig(), data@.len() - 4) == Some(p as nat),
        r is None ==> last_sig(data@, end_sig(), data@.len() - 4) is None,
{
    if data.len() < 4 {
        assert(last_sig(data@, end_sig(), data@.len() - 4) is None);
        return None;
    }
    let mut i: usize = data.len() - 4;
    loop
        invariant
            i + 4 <= data@.len(),
            last_sig(data@, end_sig(), data@.len() - 4) == last_sig(data@, end_sig(), i as int),
        decreases i,
    {
        if sig_matches(data, i as u128, 0x05, 0x06) {
            return Some(i);
        }
        if i == 0 {
            assert(last_sig(data@, end_sig(), -1) is None);
            return None;
        }
        i = i - 1;
    }
}

/// Executable counterpart of `DirScan`.
enum DirWalk {
    Found(u128),
    NotFound,
    NameOverrun,
}

spec fn walk_view(w: DirWalk) -> DirScan {
    match w {
        DirWalk::Found(o) => DirScan::Found(o as nat),
        DirWalk::NotFound => DirScan::NotFound,
        DirWalk::NameOverrun => DirScan::NameOverrun,
    }
}

fn walk_directory(data: &[u8]) -> (r: Option<DirWalk>)
    ensures
        match r {
            None => dir_scan(data@) is None,
            Some(w) => dir_scan(data@) == Some(walk_view(w)),
        },
        r matches Some(DirWalk::Found(o)) ==> o + 46 <= data@.len(),
{
    let e = match find_end_record(data) {
        Some(e) => e,
        None => return None,
    };
    let entries = rd16(data, e as u128 + 10);
    let mut off = rd32(data, e as u128 + 16);
    let mut left = entries;
    let n: usize = data.len();
    let len = n as u128;
    let ghost d = data@;
    while left > 0
        invariant
            len == d.len(),
            len <= usize::MAX,
            d == data@,
            off <= 0x1_0000_0000_0000_0000 + 0x4_0000,
            left <= 0x1_0000,
            dir_scan(d) == Some(scan_dir(d, off as nat, left as nat)),
        decreases left,
    {
        if len < off + 46 || !sig_matches(data, off, 0x01, 0x02) {
            return Some(DirWalk::NotFound);
        }
        let name_len = rd16(data, off + 28);
        if off + 46 + name_len > len {
            return Some(DirWalk::NameOverrun);
        }
        let name = vstd::slice::slice_subrange(data, (off + 46) as usize, (off + 46 + name_len) as usize);
        if rom_name(name) {
            return Some(DirWalk::Found(off));
        }
        let extra_len = rd16(data, off + 30);
        let comment_len = rd16(data, off + 32);
        off = off + 46 + name_len + extra_len + comment_len;
        left = left - 1;
    }
    Some(DirWalk::NotFound)
}

/// Locate the first `*.gb`/`*.gbc` entry of a zip archive.
pub fn locate_rom_entry(data: &[u8]) -> (r: Result<ZipMember, ZipError>)
    ensures
        r == rom_entry(data@),
{
    let off = match walk_directory(data) {
        None => return Err(ZipError::NoEndRecord),
        Some(DirWalk::Found(o)) => o,
        Some(DirWalk::NameOverrun) => return Err(ZipError::BadEntryName),
        Some(DirWalk::NotFound) => return Err(ZipError::NoRomEntry),
    };
    let n: usize = data.len();
    let len = n as u128;
    let method = rd16(data, off + 10);
    let size = rd32(data, off + 20);
    let lo = rd32(data, off + 42);
    if len < lo + 30 || !sig_matches(data, lo, 0x03, 0x04) {
        return Err(ZipError::BadLocalHeader);
    }
    let start = lo + 30 + rd16(data, lo + 26) + rd16(data, lo + 28);
    if start + size > len {
        return Err(ZipError::Truncated);
    }
    if method == 0 {
        Ok(ZipMember::Stored { start: start as usize, size: size as usize })
    } else if method == 8 {
        Ok(ZipMember::Deflated { start: start as usize, size: size as usize })
    } else {
        Err(ZipError::UnsupportedMethod(method as u16))
    }
}

/// A ROM image from raw bytes: plain `.gb`/`.gbc` data passes through, a zip
/// archive yields its first `*.gb`/`*.gbc` entry.
pub open spec fn extracted(d: Seq<u8>, out: Result<Vec<u8>, ZipError>) -> bool {
    if !is_zip(d) {
        out matches Ok(v) && v@ == d
    } else {
        match rom_entry(d) {
            Err(e) => out == Err::<Vec<u8>, ZipError>(e),
            Ok(ZipMember::Stored { start, size }) => out matches Ok(v) && v@ == d.subrange(start as int, start + size),
            Ok(ZipMember::Deflated { start, size }) => match inflated(d.subrange(start as int, start + size)) {
                Some(x) => out matches Ok(v) && v@ == x,
                None => out == Err::<Vec<u8>, ZipError>(ZipError::InflateFailed),
            },
        }
    }
}

/// Extract a Game Boy ROM from raw bytes: plain .gb/.gbc data passes through,
/// zip archives are searched for the first .gb/.gbc entry.
pub fn extract_rom(data: &[u8]) -> (r: Result<Vec<u8>, ZipError>)
    ensures
        extracted(data@, r),
{
    let n: usize = data.len();
    if !sig_matches(data, 0, 0x03, 0x04) {
        return Ok(crate::image::copy_bytes(data));
    }
    match locate_rom_entry(data) {
        Err(e) => Err(e),
        Ok(ZipMember::Stored { start, size }) => {
            Ok(crate::image::copy_bytes(vstd::slice::slice_subrange(data, start, start + size)))
        },
        Ok(ZipMember::Deflated { start, size }) => {
            match inflate(vstd::slice::slice_subrange(data, start, start + size)) {
                Some(out) => Ok(out),
                None => Err(ZipError::InflateFailed),
            }
        },
    }
}

} // verus!
