//! Machine-level behavior: construction, ROM loading, timers, keys,
//! call/return and the stack bounds.

use chip8_rs::chip8::Chip8;
use chip8_rs::cpu::Cpu;
use chip8_rs::semantics::{Chip8Error, StepStatus};

#[test]
fn fresh_cpu_is_zeroed() {
    let c = Cpu::new();
    assert_eq!(c.pc, 0x200);
    assert_eq!(c.i, 0);
    assert_eq!(c.sp, 0);
    assert_eq!(c.stack.len(), 0);
    assert_eq!(c.delay_timer, 0);
    assert_eq!(c.sound_timer, 0);
    assert!(c.v.iter().all(|&r| r == 0));
}

#[test]
fn fresh_machine_has_font_loaded() {
    let c = Chip8::new();
    assert_eq!(c.memory.len(), 4096);
    // Glyph 0 starts at 0x50, glyph F ends at 0x9F.
    assert_eq!(c.memory[0x50], 0xF0);
    assert_eq!(c.memory[0x51], 0x90);
    assert_eq!(c.memory[0x9F], 0x80);
    // Everything around the font block is zero.
    assert!(c.memory[..0x50].iter().all(|&b| b == 0));
    assert!(c.memory[0xA0..].iter().all(|&b| b == 0));
    assert!(c.display.iter().all(|&p| p == 0));
    assert!(!c.draw_flag);
}

#[test]
fn load_rom_copies_bytes_at_0x200() {
    let mut c = Chip8::new();
    let rom = vec![0xAB, 0xCD, 0xEF];
    assert_eq!(c.load_rom(&rom), Ok(()));
    assert_eq!(c.memory[0x200], 0xAB);
    assert_eq!(c.memory[0x201], 0xCD);
    assert_eq!(c.memory[0x202], 0xEF);
    assert_eq!(c.memory[0x203], 0x00);
}

#[test]
fn load_rom_of_exactly_full_size_succeeds() {
    let mut c = Chip8::new();
    let rom = vec![0x11; 4096 - 0x200];
    assert_eq!(c.load_rom(&rom), Ok(()));
    assert_eq!(c.memory[0x200], 0x11);
    assert_eq!(c.memory[4095], 0x11);
}

#[test]
fn load_rom_one_byte_too_long_fails() {
    let mut c = Chip8::new();
    let rom = vec![0x11; 4096 - 0x200 + 1];
    assert_eq!(c.load_rom(&rom), Err(Chip8Error::RomTooLarge));
    // No partial load.
    assert_eq!(c.memory[0x200], 0);
}

#[test]
fn tick_timers_decrements_to_zero_and_floors() {
    let mut c = Chip8::new();
    c.cpu.delay_timer = 2;
    c.cpu.sound_timer = 1;
    c.tick_timers();
    assert_eq!(c.cpu.delay_timer, 1);
    assert_eq!(c.cpu.sound_timer, 0);
    c.tick_timers();
    assert_eq!(c.cpu.delay_timer, 0);
    assert_eq!(c.cpu.sound_timer, 0);
    // The floor: a timer at zero stays at zero.
    c.tick_timers();
    assert_eq!(c.cpu.delay_timer, 0);
    assert_eq!(c.cpu.sound_timer, 0);
}

#[test]
fn stepping_does_not_tick_timers() {
    let mut c = Chip8::new();
    c.cpu.delay_timer = 7;
    let rom = vec![0x60, 0x01]; // v0 := 1
    c.load_rom(&rom).unwrap();
    c.emulate_cycle().unwrap();
    assert_eq!(c.cpu.delay_timer, 7);
}

#[test]
fn set_key_records_press_and_release() {
    let mut c = Chip8::new();
    c.set_key(0xA, true);
    assert!(c.keypad[0xA]);
    c.set_key(0xA, false);
    assert!(!c.keypad[0xA]);
}

#[test]
fn call_then_return_restores_pc_after_call() {
    let mut c = Chip8::new();
    // 0x200: 2206 (call 0x206); 0x206: 00EE (return).
    let rom = vec![0x22, 0x06, 0x00, 0x00, 0x00, 0x00, 0x00, 0xEE];
    c.load_rom(&rom).unwrap();
    assert_eq!(c.emulate_cycle(), Ok(StepStatus::Executed));
    assert_eq!(c.cpu.pc, 0x206);
    assert_eq!(c.cpu.stack.len(), 1);
    assert_eq!(c.cpu.sp, 1);
    assert_eq!(c.emulate_cycle(), Ok(StepStatus::Executed));
    assert_eq!(c.cpu.pc, 0x202);
    assert_eq!(c.cpu.stack.len(), 0);
    assert_eq!(c.cpu.sp, 0);
}

#[test]
fn seventeenth_nested_call_overflows_the_stack() {
    let mut c = Chip8::new();
    // Seventeen call instructions, each calling the next one.
    let mut rom = Vec::new();
    for k in 0..17u16 {
        let target = 0x202 + 2 * k;
        rom.push(0x20 | (target >> 8) as u8);
        rom.push((target & 0xFF) as u8);
    }
    c.load_rom(&rom).unwrap();
    for _ in 0..16 {
        assert_eq!(c.emulate_cycle(), Ok(StepStatus::Executed));
    }
    assert_eq!(c.cpu.stack.len(), 16);
    assert_eq!(c.emulate_cycle(), Err(Chip8Error::StackOverflow));
    assert_eq!(c.cpu.stack.len(), 16);
}

#[test]
fn return_on_fresh_machine_underflows_the_stack() {
    let mut c = Chip8::new();
    let rom = vec![0x00, 0xEE];
    c.load_rom(&rom).unwrap();
    assert_eq!(c.emulate_cycle(), Err(Chip8Error::StackUnderflow));
}

#[test]
fn fetch_past_end_of_memory_fails() {
    let mut c = Chip8::new();
    c.jump(0xFFF);
    assert_eq!(c.emulate_cycle(), Err(Chip8Error::MemoryOutOfBounds));
    // Nothing moved: a failed fetch leaves the machine as it stood.
    assert_eq!(c.cpu.pc, 0xFFF);
}

#[test]
fn unknown_opcodes_report_the_raw_pattern() {
    let mut c = Chip8::new();
    let rom = vec![0x00, 0x00];
    c.load_rom(&rom).unwrap();
    assert_eq!(c.emulate_cycle(), Err(Chip8Error::UnknownOpcode(0x0000)));

    let mut c2 = Chip8::new();
    let rom2 = vec![0x80, 0x18]; // 8XY8 is no ALU operation
    c2.load_rom(&rom2).unwrap();
    assert_eq!(c2.emulate_cycle(), Err(Chip8Error::UnknownOpcode(0x8018)));

    let mut c3 = Chip8::new();
    let rom3 = vec![0xF0, 0xFF]; // FXFF is no instruction
    c3.load_rom(&rom3).unwrap();
    assert_eq!(c3.emulate_cycle(), Err(Chip8Error::UnknownOpcode(0xF0FF)));

    let mut c4 = Chip8::new();
    let rom4 = vec![0x50, 0x11]; // 5XY1 is no skip
    c4.load_rom(&rom4).unwrap();
    assert_eq!(c4.emulate_cycle(), Err(Chip8Error::UnknownOpcode(0x5011)));
}

#[test]
fn reload_overwrites_previous_program() {
    let mut c = Chip8::new();
    c.load_rom(&vec![0xAA, 0xBB]).unwrap();
    c.load_rom(&vec![0x11]).unwrap();
    assert_eq!(c.memory[0x200], 0x11);
    // Bytes past the new image keep their old value: loading resets
    // nothing else.
    assert_eq!(c.memory[0x201], 0xBB);
}
