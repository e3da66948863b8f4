use omaboy_core::gameboy::Gameboy;

/// A ROM-only cartridge whose program starts at 0x100.
fn machine(program: &[u8]) -> Gameboy {
    let mut rom = vec![0u8; 0x8000];
    rom[0x100..0x100 + program.len()].copy_from_slice(program);
    rom[0x134..0x138].copy_from_slice(b"TEST");
    Gameboy::new(rom).unwrap()
}

fn run(gb: &mut Gameboy, steps: usize) {
    for _ in 0..steps {
        gb.cpu.step(&mut gb.bus);
    }
}

#[test]
fn power_on_registers() {
    let gb = machine(&[]);
    assert_eq!((gb.cpu.a, gb.cpu.f, gb.cpu.b, gb.cpu.c), (0x01, 0xB0, 0x00, 0x13));
    assert_eq!((gb.cpu.d, gb.cpu.e, gb.cpu.h, gb.cpu.l), (0x00, 0xD8, 0x01, 0x4D));
    assert_eq!((gb.cpu.sp, gb.cpu.pc), (0xFFFE, 0x0100));
    let mut rom = vec![0u8; 0x8000];
    rom[0x143] = 0x80;
    let cgb = Gameboy::new(rom).unwrap();
    assert_eq!(cgb.cpu.a, 0x11);
}

#[test]
fn add_sets_half_carry_and_carry() {
    // LD A,0x3A; ADD A,0xC6
    let mut gb = machine(&[0x3E, 0x3A, 0xC6, 0xC6]);
    run(&mut gb, 2);
    assert_eq!(gb.cpu.a, 0x00);
    assert_eq!(gb.cpu.f, 0x80 | 0x20 | 0x10);
    assert_eq!(gb.cpu.pc, 0x104);
}

#[test]
fn sub_and_compare_flags() {
    // LD A,0x3E; SUB 0x0F; CP 0x2F
    let mut gb = machine(&[0x3E, 0x3E, 0xD6, 0x0F, 0xFE, 0x2F]);
    run(&mut gb, 2);
    assert_eq!(gb.cpu.a, 0x2F);
    assert_eq!(gb.cpu.f, 0x40 | 0x20);
    run(&mut gb, 1);
    assert_eq!(gb.cpu.a, 0x2F);
    assert_eq!(gb.cpu.f, 0x80 | 0x40);
}

#[test]
fn daa_after_bcd_add() {
    // LD A,0x45; ADD A,0x38; DAA  -> 83 in BCD
    let mut gb = machine(&[0x3E, 0x45, 0xC6, 0x38, 0x27]);
    run(&mut gb, 3);
    assert_eq!(gb.cpu.a, 0x83);
    assert_eq!(gb.cpu.f & 0x10, 0);
}

#[test]
fn cb_swap_and_bit() {
    // LD B,0xF1; SWAP B; BIT 7,B
    let mut gb = machine(&[0x06, 0xF1, 0xCB, 0x30, 0xCB, 0x78]);
    run(&mut gb, 2);
    assert_eq!(gb.cpu.b, 0x1F);
    assert_eq!(gb.cpu.f, 0x00);
    run(&mut gb, 1);
    // Bit 7 of 0x1F is clear: Z set, H set.
    assert_eq!(gb.cpu.f, 0x80 | 0x20);
}

#[test]
fn push_pop_roundtrip_masks_flags() {
    // LD BC,0x12FF; PUSH BC; POP AF
    let mut gb = machine(&[0x01, 0xFF, 0x12, 0xC5, 0xF1]);
    run(&mut gb, 3);
    assert_eq!(gb.cpu.a, 0x12);
    assert_eq!(gb.cpu.f, 0xF0);
    assert_eq!(gb.cpu.sp, 0xFFFE);
}

#[test]
fn call_and_return() {
    // CALL 0x0110 ; at 0x110: LD A,0x77; RET
    let mut program = vec![0u8; 0x13];
    program[0] = 0xCD;
    program[1] = 0x10;
    program[2] = 0x01;
    program[0x10] = 0x3E;
    program[0x11] = 0x77;
    program[0x12] = 0xC9;
    let mut gb = machine(&program);
    run(&mut gb, 1);
    assert_eq!(gb.cpu.pc, 0x110);
    assert_eq!(gb.cpu.sp, 0xFFFC);
    run(&mut gb, 2);
    assert_eq!(gb.cpu.a, 0x77);
    assert_eq!(gb.cpu.pc, 0x103);
    assert_eq!(gb.cpu.sp, 0xFFFE);
}

#[test]
fn memory_roundtrip_through_hl() {
    // LD HL,0xC123; LD (HL),0x5A; LD A,(HL+) ; -> HL = 0xC124
    let mut gb = machine(&[0x21, 0x23, 0xC1, 0x36, 0x5A, 0x2A]);
    run(&mut gb, 3);
    assert_eq!(gb.cpu.a, 0x5A);
    assert_eq!((gb.cpu.h, gb.cpu.l), (0xC1, 0x24));
    assert_eq!(gb.bus.read(0xC123), 0x5A);
}

#[test]
fn timer_interrupt_is_serviced() {
    // EI; then spin (JR -2). Enable the timer interrupt and request it.
    let mut gb = machine(&[0xFB, 0x00, 0x18, 0xFE]);
    gb.bus.ie = 0x04;
    gb.bus.iff |= 0x04;
    run(&mut gb, 2);
    run(&mut gb, 1);
    assert_eq!(gb.cpu.pc, 0x50);
    assert!(!gb.cpu.ime);
    assert_eq!(gb.bus.iff & 0x04, 0);
    // The return address was pushed.
    assert_eq!(gb.cpu.sp, 0xFFFC);
}

#[test]
fn halt_waits_for_interrupt() {
    // HALT; INC A
    let mut gb = machine(&[0x76, 0x3C]);
    gb.bus.ie = 0;
    run(&mut gb, 1);
    assert!(gb.cpu.halted);
    let a = gb.cpu.a;
    run(&mut gb, 5);
    assert!(gb.cpu.halted);
    assert_eq!(gb.cpu.a, a);
    gb.bus.ie = 0x01;
    gb.bus.iff |= 0x01;
    run(&mut gb, 1);
    assert!(!gb.cpu.halted);
    assert_eq!(gb.cpu.a, a.wrapping_add(1));
}

#[test]
fn add_sp_signed_offset() {
    // LD SP,0xFFF8; ADD SP,-8 (0xF8)
    let mut gb = machine(&[0x31, 0xF8, 0xFF, 0xE8, 0xF8]);
    run(&mut gb, 2);
    assert_eq!(gb.cpu.sp, 0xFFF0);
    assert_eq!(gb.cpu.f, 0x10 | 0x20);
}

#[test]
fn run_frame_completes_a_frame() {
    let mut gb = machine(&[0x18, 0xFE]);
    gb.run_frame();
    assert!(gb.bus.ppu.frame_ready);
    assert!(gb.bus.frame_cycles >= 70224 / 2);
}

#[test]
fn reset_keeps_battery_ram() {
    let mut rom = vec![0u8; 0x8000];
    rom[0x147] = 0x03;
    rom[0x149] = 0x02;
    let mut gb = Gameboy::new(rom).unwrap();
    gb.bus.cart.ram[5] = 0x99;
    gb.cpu.a = 0x42;
    gb.reset();
    assert_eq!(gb.bus.cart.ram[5], 0x99);
    assert_eq!(gb.cpu.a, 0x01);
    assert_eq!(gb.cpu.pc, 0x100);
}

/// Real-time cycles that one `step` takes.
fn step_cycles(gb: &mut Gameboy) -> u64 {
    let before = gb.bus.frame_cycles;
    gb.cpu.step(&mut gb.bus);
    gb.bus.frame_cycles - before
}

#[test]
fn instruction_cycle_counts() {
    // NOP; LD BC,0x1234; LD HL,0xC000; LD (HL),0x80; BIT 7,(HL); RES 7,(HL);
    // JR +0 (taken); XOR A (Z set); JR NZ,+0 (not taken); PUSH BC; POP DE;
    // CALL 0x0120 ... RET
    let mut program = vec![0u8; 0x21];
    let head = [
        0x00, 0x01, 0x34, 0x12, 0x21, 0x00, 0xC0, 0x36, 0x80, 0xCB, 0x7E, 0xCB, 0xBE, 0x18, 0x00, 0xAF,
        0x20, 0x00, 0xC5, 0xD1, 0xCD, 0x20, 0x01,
    ];
    program[..head.len()].copy_from_slice(&head);
    program[0x20] = 0xC9;
    let mut gb = machine(&program);
    let expected = [4u64, 12, 12, 12, 12, 16, 12, 4, 8, 16, 12, 24, 16];
    for (i, &cycles) in expected.iter().enumerate() {
        assert_eq!(step_cycles(&mut gb), cycles, "instruction {}", i);
    }
    assert_eq!(gb.cpu.pc, 0x117);
    assert_eq!((gb.cpu.d, gb.cpu.e), (0x12, 0x34));
}

#[test]
fn interrupt_dispatch_takes_five_m_cycles() {
    let mut gb = machine(&[0x00]);
    gb.cpu.ime = true;
    gb.bus.ie = 0x01;
    gb.bus.iff |= 0x01;
    assert_eq!(step_cycles(&mut gb), 20);
    assert_eq!(gb.cpu.pc, 0x40);
}

#[test]
fn halted_cpu_idles_one_m_cycle() {
    let mut gb = machine(&[0x76]);
    gb.bus.ie = 0;
    assert_eq!(step_cycles(&mut gb), 4);
    assert!(gb.cpu.halted);
    assert_eq!(step_cycles(&mut gb), 4);
    assert_eq!(gb.cpu.pc, 0x101);
}

#[test]
fn stores_to_interrupt_enable_and_oam() {
    // LD A,0x1F; LDH (0xFF),A; LD HL,0xFE00; LD (HL),0x42; LD B,(HL)
    let mut gb = machine(&[0x3E, 0x1F, 0xE0, 0xFF, 0x21, 0x00, 0xFE, 0x36, 0x42, 0x46]);
    run(&mut gb, 2);
    assert_eq!(gb.bus.ie, 0x1F);
    run(&mut gb, 3);
    assert_eq!(gb.bus.read(0xFE00), 0x42);
    assert_eq!(gb.cpu.b, 0x42);
}

#[test]
fn reads_cartridge_ram() {
    // LD A,0x0A; LD (0x0000),A (enable RAM); LD HL,0xA000; LD (HL),0x77; LD A,(HL)
    let mut rom = vec![0u8; 0x8000];
    let program = [0x3E, 0x0A, 0xEA, 0x00, 0x00, 0x21, 0x00, 0xA0, 0x36, 0x77, 0x3E, 0x00, 0x7E];
    rom[0x100..0x100 + program.len()].copy_from_slice(&program);
    rom[0x147] = 0x03;
    rom[0x149] = 0x02;
    let mut gb = Gameboy::new(rom).unwrap();
    run(&mut gb, 6);
    assert_eq!(gb.cpu.a, 0x77);
    assert_eq!(gb.bus.cart.ram[0], 0x77);
}

#[test]
fn store_to_rom_area_switches_bank() {
    // LD A,0x02; LD (0x2000),A; LD A,(0x4000)
    let mut rom = vec![0u8; 0x10000];
    let program = [0x3E, 0x02, 0xEA, 0x00, 0x20, 0xFA, 0x00, 0x40];
    rom[0x100..0x100 + program.len()].copy_from_slice(&program);
    rom[0x147] = 0x01;
    rom[0x148] = 0x01;
    rom[0x4000] = 0x11;
    rom[0x8000] = 0x5B;
    let mut gb = Gameboy::new(rom).unwrap();
    run(&mut gb, 3);
    assert_eq!(gb.cpu.a, 0x5B);
}

#[test]
fn stores_to_vram_and_echo_ram() {
    // LD HL,0x8000; LD A,0x99; LD (HL),A; LD (0xE010),A
    let mut gb = machine(&[0x21, 0x00, 0x80, 0x3E, 0x99, 0x77, 0xEA, 0x10, 0xE0]);
    run(&mut gb, 4);
    assert_eq!(gb.bus.read(0x8000), 0x99);
    assert_eq!(gb.bus.read(0xC010), 0x99);
    assert_eq!(gb.bus.read(0xE010), 0x99);
}

#[test]
fn io_load_sees_the_bus_as_the_instruction_ends() {
    // NOP; LDH A,(0x44) reads LY as line 3 begins; LD HL,0xFF44; LD B,(HL)
    let mut gb = machine(&[0x00, 0xF0, 0x44, 0x21, 0x44, 0xFF, 0x46]);
    gb.bus.tick(456 * 3 - 8);
    run(&mut gb, 2);
    assert_eq!(gb.cpu.a, 3);
    assert_eq!(gb.cpu.a, gb.bus.read(0xFF44));
    run(&mut gb, 2);
    assert_eq!(gb.cpu.b, gb.bus.read(0xFF44));
}

#[test]
fn ei_takes_effect_after_the_next_instruction() {
    // EI; NOP; DI
    let mut gb = machine(&[0xFB, 0x00, 0xF3]);
    gb.bus.ie = 0;
    run(&mut gb, 1);
    assert!(!gb.cpu.ime);
    run(&mut gb, 1);
    assert!(gb.cpu.ime);
    run(&mut gb, 1);
    assert!(!gb.cpu.ime);
}

#[test]
fn daa_after_bcd_sub() {
    // LD A,0x42; SUB 0x17; DAA  -> 25 in BCD, N set, no borrow
    let mut gb = machine(&[0x3E, 0x42, 0xD6, 0x17, 0x27]);
    run(&mut gb, 3);
    assert_eq!(gb.cpu.a, 0x25);
    assert_eq!(gb.cpu.f, 0x40);
    // LD A,0x17; SUB 0x42; DAA  -> (17 - 42) mod 100 = 75, borrow in C
    let mut gb = machine(&[0x3E, 0x17, 0xD6, 0x42, 0x27]);
    run(&mut gb, 3);
    assert_eq!(gb.cpu.a, 0x75);
    assert_eq!(gb.cpu.f, 0x40 | 0x10);
}

#[test]
fn daa_sum_of_hundred_is_zero_with_carry() {
    // LD A,0x50; ADD A,0x50; DAA  -> 00, Z and C set
    let mut gb = machine(&[0x3E, 0x50, 0xC6, 0x50, 0x27]);
    run(&mut gb, 3);
    assert_eq!(gb.cpu.a, 0x00);
    assert_eq!(gb.cpu.f, 0x80 | 0x10);
}

#[test]
fn reset_returns_the_mapper_to_power_on() {
    let mut rom = vec![0u8; 0x10000];
    rom[0x147] = 0x03;
    rom[0x148] = 0x01;
    rom[0x149] = 0x02;
    let mut gb = Gameboy::new(rom).unwrap();
    gb.bus.write(0x0000, 0x0A);
    gb.bus.write(0x2000, 0x03);
    gb.bus.write(0x6000, 0x01);
    assert!(gb.bus.cart.ram_enabled);
    assert_eq!(gb.bus.cart.rom_bank, 3);
    gb.reset();
    assert!(!gb.bus.cart.ram_enabled);
    assert_eq!(gb.bus.cart.rom_bank, 1);
    assert!(!gb.bus.cart.mbc1_mode);
    assert!(!gb.bus.cart.ram_dirty);
    assert_eq!(gb.bus.cart.rtc_latch_state, 0xFF);
}

#[test]
fn run_frame_executes_the_program() {
    // INC B; JR -3: B counts the loop iterations of one frame.
    let mut gb = machine(&[0x04, 0x18, 0xFD]);
    gb.run_frame();
    assert!(gb.bus.ppu.frame_ready);
    assert_ne!(gb.cpu.b, 0x00);
    assert!(gb.cpu.pc == 0x100 || gb.cpu.pc == 0x101);
    assert_eq!(gb.cpu.f & 0x0F, 0);
}
