//! Joypad matrix. Button bit order:
//! 0=Right 1=Left 2=Up 3=Down 4=A 5=B 6=Select 7=Start (1 = pressed).

use vstd::prelude::*;

verus! {

/// P1 as read with select lines `select` and pressed mask `buttons`.
pub open spec fn p1_value(select: u8, buttons: u8) -> u8 {
    let dirs: u8 = if select & 0x10 == 0 { buttons & 0x0F } else { 0 };
    let acts: u8 = if select & 0x20 == 0 { buttons >> 4 } else { 0 };
    0xC0 | select | (0x0F & !(dirs | acts))
}

pub struct Joypad {
    /// P1 bits 4-5 (select lines, active low).
    pub select: u8,
    /// 1 = pressed.
    pub buttons: u8,
    pub interrupt: bool,
}

impl Joypad {
    /// The P1 register as the CPU reads it: bits 6-7 read high, the select
    /// lines read back, and a selected group pulls its pressed lines low.
    pub open spec fn read_spec(self) -> u8 {
        p1_value(self.select, self.buttons)
    }

    pub fn new() -> (j: Joypad)
        ensures
            j.select == 0x30,
            j.buttons == 0,
            !j.interrupt,
    {
        Joypad { select: 0x30, buttons: 0, interrupt: false }
    }

    /// Replace the pressed-button mask; any newly pressed button requests the
    /// joypad interrupt.
    pub fn set_buttons(&mut self, buttons: u8)
        ensures
            final(self).buttons == buttons,
            final(self).select == old(self).select,
            final(self).interrupt == (old(self).interrupt || buttons & !old(self).buttons != 0),
    {
        if buttons & !self.buttons != 0 {
            self.interrupt = true;
        }
        self.buttons = buttons;
    }

    pub fn read(&self) -> (v: u8)
        ensures
            v == self.read_spec(),
    {
        let mut lines: u8 = 0x0F;
        if self.select & 0x10 == 0 {
            lines &= !(self.buttons & 0x0F);  // directions
        }
        if self.select & 0x20 == 0 {
            lines &= !(self.buttons >> 4);  // action buttons
        }
        let sel = self.select;
        let btn = self.buttons;
        let r = 0xC0 | self.select | (lines & 0x0F);
        assert(r == p1_value(sel, btn)) by (bit_vector)
            requires
                r == 0xC0 | sel | (lines & 0x0F),
                lines == (if sel & 0x20 == 0 {
                    (if sel & 0x10 == 0 { 0x0Fu8 & !(btn & 0x0F) } else { 0x0Fu8 }) & !(btn >> 4)
                } else {
                    (if sel & 0x10 == 0 { 0x0Fu8 & !(btn & 0x0F) } else { 0x0Fu8 })
                }),
        ;
        r
    }

    pub fn write(&mut self, val: u8)
        ensures
            final(self).select == val & 0x30,
            final(self).buttons == old(self).buttons,
            final(self).interrupt == old(self).interrupt,
    {
        self.select = val & 0x30;
    }
}

/// What P1 reads with `select` holding only the select lines (bits 4-5,
/// active low): the top two bits read 1, the select lines read back, and the
/// low nibble is 15 minus the pressed buttons of the selected group:
/// directions (`buttons % 16`) when bit 4 is low, actions (`buttons / 16`)
/// when bit 5 is low, either group's presses when both are, none when
/// neither is.
pub proof fn lemma_p1_groups(select: u8, buttons: u8)
    requires
        select & 0xCF == 0,
    ensures
        p1_value(select, buttons) / 16 == 12 + select / 16,
        select == 0x20 ==> p1_value(select, buttons) % 16 == 15 - buttons % 16,
        select == 0x10 ==> p1_value(select, buttons) % 16 == 15 - buttons / 16,
        select == 0x30 ==> p1_value(select, buttons) % 16 == 15,
        select == 0 ==> p1_value(select, buttons) % 16 == 15 - ((buttons % 16) | (buttons / 16)),
{
    let p = p1_value(select, buttons);
    assert(
        (p / 16 == 12 + select / 16)
        && (select == 0x20 ==> p % 16 == 15 - buttons % 16)
        && (select == 0x10 ==> p % 16 == 15 - buttons / 16)
        && (select == 0x30 ==> p % 16 == 15)
        && (select == 0 ==> p % 16 == 15 - ((buttons % 16) | (buttons / 16)))
    ) by (bit_vector)
        requires
            select & 0xCF == 0,
            p == 0xC0 | select | (0x0F & !((if select & 0x10 == 0 { buttons & 0x0F } else { 0 })
                | (if select & 0x20 == 0 { buttons >> 4 } else { 0 }))),
    ;
}

} // verus!
