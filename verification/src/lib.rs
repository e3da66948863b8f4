//! Game Boy / Game Boy Color emulator core: CPU, memory bus, cartridge
//! mappers, timer, joypad, PPU, APU and machine snapshots.

pub mod bits;
pub mod timer;
pub mod joypad;
pub mod cartridge;
pub mod ppu;
pub mod apu;
pub mod bus;
pub mod cpu;
pub mod gameboy;
pub mod image;
pub mod state;
