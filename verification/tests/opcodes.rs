//! Opcode semantics: register moves, arithmetic and flags, skips,
//! jumps, the draw algorithm with its wraparound and collision rules,
//! keys, timers and the memory-block instructions.

use chip8_rs::chip8::Chip8;
use chip8_rs::semantics::{Chip8Error, StepStatus};

/// Runs `steps` instructions of `rom` on a fresh machine.
fn run(rom: &[u8], steps: usize) -> Chip8 {
    let mut c = Chip8::new();
    c.load_rom(&rom.to_vec()).unwrap();
    for _ in 0..steps {
        c.emulate_cycle().unwrap();
    }
    c
}

#[test]
fn load_and_add_immediate_wrap_modulo_256() {
    // v3 := 200, then 7XNN adds 100: 300 mod 256 == 44, no carry flag.
    let c = run(&[0x63, 200, 0x73, 100], 2);
    assert_eq!(c.cpu.v[3], 44);
    assert_eq!(c.cpu.v[0xF], 0);

    // The same without wraparound.
    let c2 = run(&[0x60, 7, 0x70, 5], 2);
    assert_eq!(c2.cpu.v[0], 12);
}

#[test]
fn clear_display_zeroes_cells_and_requests_redraw() {
    let mut c = Chip8::new();
    c.display[100] = 1;
    c.display[2047] = 1;
    c.load_rom(&vec![0x00, 0xE0]).unwrap();
    assert_eq!(c.emulate_cycle(), Ok(StepStatus::Executed));
    assert!(c.display.iter().all(|&p| p == 0));
    assert!(c.draw_flag);
}

#[test]
fn jump_sets_pc() {
    let c = run(&[0x1A, 0xBC], 1);
    assert_eq!(c.cpu.pc, 0xABC);
}

#[test]
fn jump_with_offset_adds_v0() {
    let c = run(&[0x60, 0x10, 0xB3, 0x00], 2);
    assert_eq!(c.cpu.pc, 0x310);
}

#[test]
fn skip_equal_immediate() {
    // v0 := 5; 3005 skips the next instruction.
    let c = run(&[0x60, 5, 0x30, 5], 2);
    assert_eq!(c.cpu.pc, 0x206);
    // v0 := 5; 3006 does not skip.
    let c2 = run(&[0x60, 5, 0x30, 6], 2);
    assert_eq!(c2.cpu.pc, 0x204);
}

#[test]
fn skip_not_equal_immediate() {
    let c = run(&[0x60, 5, 0x40, 6], 2);
    assert_eq!(c.cpu.pc, 0x206);
    let c2 = run(&[0x60, 5, 0x40, 5], 2);
    assert_eq!(c2.cpu.pc, 0x204);
}

#[test]
fn skip_on_register_comparison() {
    // v0 == v1 == 9: 5010 skips.
    let c = run(&[0x60, 9, 0x61, 9, 0x50, 0x10], 3);
    assert_eq!(c.cpu.pc, 0x208);
    // 9010 skips only when they differ.
    let c2 = run(&[0x60, 9, 0x61, 8, 0x90, 0x10], 3);
    assert_eq!(c2.cpu.pc, 0x208);
    let c3 = run(&[0x60, 9, 0x61, 9, 0x90, 0x10], 3);
    assert_eq!(c3.cpu.pc, 0x206);
}

#[test]
fn alu_moves_and_bitwise_ops() {
    // v0 := 0xCC, v1 := 0xAA.
    let c = run(&[0x60, 0xCC, 0x61, 0xAA, 0x80, 0x10], 3); // 8010: v0 := v1
    assert_eq!(c.cpu.v[0], 0xAA);
    let c2 = run(&[0x60, 0xCC, 0x61, 0xAA, 0x80, 0x11], 3); // OR
    assert_eq!(c2.cpu.v[0], 0xEE);
    let c3 = run(&[0x60, 0xCC, 0x61, 0xAA, 0x80, 0x12], 3); // AND
    assert_eq!(c3.cpu.v[0], 0x88);
    let c4 = run(&[0x60, 0xCC, 0x61, 0xAA, 0x80, 0x13], 3); // XOR
    assert_eq!(c4.cpu.v[0], 0x66);
}

#[test]
fn alu_add_sets_carry_flag() {
    // 200 + 100 = 300: result 44, carry 1.
    let c = run(&[0x60, 200, 0x61, 100, 0x80, 0x14], 3);
    assert_eq!(c.cpu.v[0], 44);
    assert_eq!(c.cpu.v[0xF], 1);
    // 7 + 5 = 12: no carry.
    let c2 = run(&[0x60, 7, 0x61, 5, 0x80, 0x14], 3);
    assert_eq!(c2.cpu.v[0], 12);
    assert_eq!(c2.cpu.v[0xF], 0);
}

#[test]
fn alu_sub_sets_no_borrow_flag() {
    // 10 - 3 = 7, no borrow needed: flag 1.
    let c = run(&[0x60, 10, 0x61, 3, 0x80, 0x15], 3);
    assert_eq!(c.cpu.v[0], 7);
    assert_eq!(c.cpu.v[0xF], 1);
    // 3 - 10 wraps to 249, borrow: flag 0.
    let c2 = run(&[0x60, 3, 0x61, 10, 0x80, 0x15], 3);
    assert_eq!(c2.cpu.v[0], 249);
    assert_eq!(c2.cpu.v[0xF], 0);
}

#[test]
fn alu_reverse_sub_sets_no_borrow_flag() {
    // v0 := v1 - v0: 10 - 3 = 7, flag 1.
    let c = run(&[0x60, 3, 0x61, 10, 0x80, 0x17], 3);
    assert_eq!(c.cpu.v[0], 7);
    assert_eq!(c.cpu.v[0xF], 1);
    let c2 = run(&[0x60, 10, 0x61, 3, 0x80, 0x17], 3);
    assert_eq!(c2.cpu.v[0], 249);
    assert_eq!(c2.cpu.v[0xF], 0);
}

#[test]
fn alu_shifts_keep_the_lost_bit() {
    // 0x85 >> 1 == 0x42, lost bit 1.
    let c = run(&[0x60, 0x85, 0x80, 0x06], 2);
    assert_eq!(c.cpu.v[0], 0x42);
    assert_eq!(c.cpu.v[0xF], 1);
    // 0x85 << 1 == 0x0A mod 256, lost bit 1.
    let c2 = run(&[0x60, 0x85, 0x80, 0x0E], 2);
    assert_eq!(c2.cpu.v[0], 0x0A);
    assert_eq!(c2.cpu.v[0xF], 1);
    // 0x21: lost bits land as 1 and 0.
    let c3 = run(&[0x60, 0x21, 0x80, 0x0E], 2);
    assert_eq!(c3.cpu.v[0], 0x42);
    assert_eq!(c3.cpu.v[0xF], 0);
}

#[test]
fn set_index_register() {
    let c = run(&[0xA1, 0x23], 1);
    assert_eq!(c.cpu.i, 0x123);
}

#[test]
fn random_bytes_follow_the_seeded_generator() {
    // The generator is one xorshift round per draw: from seed 1 the
    // first drawn byte is 0x41; from seed 0 it stays 0.
    let mut c = Chip8::new();
    c.seed_rng(1);
    c.load_rom(&vec![0xC0, 0xFF]).unwrap();
    c.emulate_cycle().unwrap();
    assert_eq!(c.cpu.v[0], 0x41);

    let mut c2 = Chip8::new();
    c2.seed_rng(0);
    c2.load_rom(&vec![0xC0, 0xFF]).unwrap();
    c2.emulate_cycle().unwrap();
    assert_eq!(c2.cpu.v[0], 0);
}

#[test]
fn random_byte_is_masked() {
    // CXNN ANDs the drawn byte with NN: only those bits can be set.
    let c = run(&[0xC0, 0x0F], 1);
    assert_eq!(c.cpu.v[0] & 0xF0, 0);
    let c2 = run(&[0xC1, 0x00], 1);
    assert_eq!(c2.cpu.v[1], 0);
}

#[test]
fn draw_sprite_at_margin_wraps_horizontally() {
    // v0 := 60, v1 := 0, i := sprite, draw one row of 0xFF at (60, 0).
    let rom = [
        0x60, 60, // v0 := 60
        0x61, 0, // v1 := 0
        0xA2, 0x0A, // i := 0x20A
        0xD0, 0x11, // draw 1 row at (v0, v1)
        0x00, 0x00, // padding
        0xFF, // the sprite
    ];
    let c = run(&rom, 4);
    assert_eq!(c.cpu.v[0xF], 0, "no prior pixels, no collision");
    assert!(c.draw_flag);
    // Row 0: lit at x = 60..63 and, wrapped, x = 0..3.
    for x in 0..64 {
        let expected = (60..64).contains(&x) || (0..4).contains(&x);
        assert_eq!(c.display[x] == 1, expected, "x = {}", x);
    }
    // Nothing spilled onto the next row.
    assert!(c.display[64..].iter().all(|&p| p == 0));
}

#[test]
fn drawing_twice_toggles_back_and_reports_collision() {
    let rom = [
        0x60, 60, // v0 := 60
        0x61, 0, // v1 := 0
        0xA2, 0x0C, // i := 0x20C
        0xD0, 0x11, // first draw
        0xD0, 0x11, // second draw, same sprite and spot
        0x00, 0x00, // padding
        0xFF, // the sprite
    ];
    let mut c = Chip8::new();
    c.load_rom(&rom.to_vec()).unwrap();
    for _ in 0..4 {
        c.emulate_cycle().unwrap();
    }
    assert_eq!(c.cpu.v[0xF], 0);
    assert_eq!(c.display.iter().filter(|&&p| p == 1).count(), 8);
    c.emulate_cycle().unwrap();
    assert_eq!(c.cpu.v[0xF], 1, "second draw collides");
    assert!(c.display.iter().all(|&p| p == 0), "XOR toggles every cell back");
    assert!(c.draw_flag);
}

#[test]
fn draw_wraps_vertically_per_axis() {
    // Draw a two-row sprite at (0, 31): second row lands on row 0.
    let rom = [
        0x60, 0, // v0 := 0
        0x61, 31, // v1 := 31
        0xA2, 0x0A, // i := 0x20A
        0xD0, 0x12, // draw 2 rows
        0x00, 0x00, // padding
        0x80, 0x80, // sprite: leftmost pixel in both rows
    ];
    let c = run(&rom, 4);
    assert_eq!(c.display[31 * 64], 1, "row 31, column 0");
    assert_eq!(c.display[0], 1, "wrapped onto row 0, column 0");
    assert_eq!(c.cpu.v[0xF], 0);
}

#[test]
fn draw_reads_coordinates_modulo_display_size() {
    // v0 := 64 wraps to column 0; v1 := 33 wraps to row 1.
    let rom = [
        0x60, 64, 0x61, 33, 0xA2, 0x0A, 0xD0, 0x11, 0x00, 0x00, 0x80,
    ];
    let c = run(&rom, 4);
    assert_eq!(c.display[64 + 0], 1);
}

#[test]
fn draw_past_end_of_memory_fails() {
    let mut c = Chip8::new();
    // i := 0xFFF, then draw two rows: the second row's byte is at 0x1000.
    let rom = vec![0xAF, 0xFF, 0xD0, 0x12];
    c.load_rom(&rom).unwrap();
    c.emulate_cycle().unwrap();
    assert_eq!(c.emulate_cycle(), Err(Chip8Error::MemoryOutOfBounds));
    assert!(c.display.iter().all(|&p| p == 0), "a failed draw touches nothing");
    assert!(!c.draw_flag);
}

#[test]
fn key_skips_test_the_key_named_by_vx() {
    // v0 := 7; EX9E skips when key 7 is pressed.
    let mut c = Chip8::new();
    c.load_rom(&vec![0x60, 7, 0xE0, 0x9E]).unwrap();
    c.set_key(7, true);
    c.emulate_cycle().unwrap();
    c.emulate_cycle().unwrap();
    assert_eq!(c.cpu.pc, 0x206);

    let mut c2 = Chip8::new();
    c2.load_rom(&vec![0x60, 7, 0xE0, 0x9E]).unwrap();
    c2.emulate_cycle().unwrap();
    c2.emulate_cycle().unwrap();
    assert_eq!(c2.cpu.pc, 0x204, "key up: no skip");

    // EXA1 skips when the key is not pressed.
    let mut c3 = Chip8::new();
    c3.load_rom(&vec![0x60, 7, 0xE0, 0xA1]).unwrap();
    c3.emulate_cycle().unwrap();
    c3.emulate_cycle().unwrap();
    assert_eq!(c3.cpu.pc, 0x206);
}

#[test]
fn wait_for_key_reports_awaiting_until_a_press() {
    let mut c = Chip8::new();
    c.load_rom(&vec![0xF5, 0x0A]).unwrap();
    assert_eq!(c.emulate_cycle(), Ok(StepStatus::AwaitingKey));
    assert_eq!(c.cpu.pc, 0x200, "the counter moves back onto the wait");
    assert_eq!(c.emulate_cycle(), Ok(StepStatus::AwaitingKey));
    c.set_key(0xB, true);
    assert_eq!(c.emulate_cycle(), Ok(StepStatus::Executed));
    assert_eq!(c.cpu.v[5], 0xB);
    assert_eq!(c.cpu.pc, 0x202);
}

#[test]
fn timer_opcodes_read_and_write() {
    // v0 := 42; F015 sets the delay timer; F207 reads it into v2;
    // v1 := 9; F118 sets the sound timer.
    let c = run(&[0x60, 42, 0xF0, 0x15, 0xF2, 0x07, 0x61, 9, 0xF1, 0x18], 5);
    assert_eq!(c.cpu.delay_timer, 42);
    assert_eq!(c.cpu.v[2], 42);
    assert_eq!(c.cpu.sound_timer, 9);
}

#[test]
fn add_to_index_masks_to_twelve_bits() {
    let c = run(&[0xAF, 0xFF, 0x60, 2, 0xF0, 0x1E], 3);
    assert_eq!(c.cpu.i, 0x001, "0xFFF + 2 wraps inside 12 bits");
    let c2 = run(&[0xA1, 0x00, 0x60, 5, 0xF0, 0x1E], 3);
    assert_eq!(c2.cpu.i, 0x105);
}

#[test]
fn font_glyph_address_lookup() {
    // v0 := 0xA: glyph A sits at 0x50 + 5 * 10.
    let c = run(&[0x60, 0x0A, 0xF0, 0x29], 2);
    assert_eq!(c.cpu.i, 0x50 + 50);
    // Only the low nibble of the register names the glyph.
    let c2 = run(&[0x60, 0x1A, 0xF0, 0x29], 2);
    assert_eq!(c2.cpu.i, 0x50 + 50);
}

#[test]
fn decimal_digits_written_hundreds_first() {
    let c = run(&[0x60, 234, 0xA3, 0x00, 0xF0, 0x33], 3);
    assert_eq!(c.memory[0x300], 2);
    assert_eq!(c.memory[0x301], 3);
    assert_eq!(c.memory[0x302], 4);

    let c2 = run(&[0x60, 7, 0xA3, 0x00, 0xF0, 0x33], 3);
    assert_eq!(c2.memory[0x300], 0);
    assert_eq!(c2.memory[0x301], 0);
    assert_eq!(c2.memory[0x302], 7);
}

#[test]
fn register_block_round_trips_through_memory() {
    // Fill v0..v3, store through v3 at 0x300, zero them, load back.
    let rom = [
        0x60, 0x11, // v0
        0x61, 0x22, // v1
        0x62, 0x33, // v2
        0x63, 0x44, // v3
        0xA3, 0x00, // i := 0x300
        0xF3, 0x55, // store v0..=v3
        0x60, 0, 0x61, 0, 0x62, 0, 0x63, 0, // zero the registers
        0xF3, 0x65, // load v0..=v3 back
    ];
    let mut c = Chip8::new();
    c.load_rom(&rom.to_vec()).unwrap();
    for _ in 0..6 {
        c.emulate_cycle().unwrap();
    }
    assert_eq!(&c.memory[0x300..0x304], &[0x11, 0x22, 0x33, 0x44]);
    for _ in 0..4 {
        c.emulate_cycle().unwrap();
    }
    assert_eq!(&c.cpu.v[0..4], &[0, 0, 0, 0]);
    c.emulate_cycle().unwrap();
    assert_eq!(&c.cpu.v[0..4], &[0x11, 0x22, 0x33, 0x44]);
    assert_eq!(c.cpu.i, 0x300, "the index register stays put");
    assert_eq!(c.cpu.v[4], 0, "registers past X stay put");
}

#[test]
fn store_registers_past_end_of_memory_fails() {
    let mut c = Chip8::new();
    let rom = vec![0xAF, 0xFF, 0xF1, 0x55];
    c.load_rom(&rom).unwrap();
    c.emulate_cycle().unwrap();
    assert_eq!(c.emulate_cycle(), Err(Chip8Error::MemoryOutOfBounds));
    let mut c2 = Chip8::new();
    let rom2 = vec![0xAF, 0xFF, 0xF1, 0x65];
    c2.load_rom(&rom2).unwrap();
    c2.emulate_cycle().unwrap();
    assert_eq!(c2.emulate_cycle(), Err(Chip8Error::MemoryOutOfBounds));
}

#[test]
fn flag_register_is_clobbered_by_alu_and_draw() {
    // A value put in v[0xF] does not survive an ALU opcode: the flag
    // overwrites it.
    let c = run(&[0x6F, 99, 0x60, 1, 0x61, 1, 0x80, 0x14], 4);
    assert_eq!(c.cpu.v[0xF], 0, "carry flag replaced the stored 99");
}
