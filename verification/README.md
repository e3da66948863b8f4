# omaboy_core

The core of a Game Boy / Game Boy Color emulator, written in Verus: every
function in `src/` carries a contract, and Verus proves all of them but five
small trusted wrappers around outside code: three for the system clock that
the MBC3 real-time clock reads (`system_now`, `since_unix_epoch`,
`whole_seconds`), one for the UTF-8 conversion of the cartridge title
(`ascii_string`), and one for DEFLATE decoding through the `flate2` crate
(`inflate`).

## Layout

- `src/cpu.rs`: the SM83 interpreter. `Cpu::step` states the effect of each
  instruction on registers and on plain RAM (work RAM, OAM, HRAM, IE), the
  cartridge's response to stores, interrupt dispatch, HALT, and the exact
  number of cycles taken.
- `src/bus.rs`: the memory map, I/O registers, OAM DMA, HBlank and general DMA,
  the serial port and the double-speed switch; `Bus::tick` clocks every
  device and moves their interrupt requests to IF.
- `src/ppu.rs`: LCD timing, STAT, and the scanline renderer (background,
  window, sprites with DMG and CGB priority), described pixel by pixel.
- `src/apu.rs`: the four sound channels, the frame sequencer, and the sample
  clock, which records integer mixer frames.
- `src/timer.rs`, `src/joypad.rs`: DIV/TIMA and the P1 matrix.
- `src/cartridge.rs`: header parsing, MBC1/2/3/5 banking, cartridge RAM, the
  MBC3 real-time clock, and ROM extraction from zip archives (deflate through
  the `flate2` crate).
- `src/state.rs`, `src/image.rs`: the save-state format; loading a saved
  state restores what was saved, and other games' or truncated states are
  refused.
- `src/gameboy.rs`: the machine: power-on, reset, running one frame (as a
  chain of `Cpu::step`s that ends when a frame is ready or the cycle cap
  passes).
- `tests/`: behaviour on concrete programs and registers.
- `app/`: the C interface, audio output in floating point, and a headless
  runner.
