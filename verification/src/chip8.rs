//! The interpreter: owns the machine state, a 4096-byte memory image
//! with the glyph font preloaded, the 64x32 framebuffer and the keypad,
//! and executes one fetched instruction per step.

use vstd::prelude::*;
use crate::cpu::Cpu;
use crate::font::{font_seq, font_set};
use crate::semantics::{
    abs_wf, add_imm_spec, call_spec, clear_spec, draw_disp, draw_partial, draw_spec,
    first_pressed_from, loaded_mem, loaded_regs, pc_plus_2, ret_spec, skip_if,
    sprite_bit, stored_mem, target_idx, tick_spec, wait_key_spec, with_pc, with_reg, AbsState,
    Chip8Error, StepStatus,
};

verus! {

/// The display's width in cells.
pub const DISPLAY_WIDTH: usize = 64;

/// The display's height in cells.
pub const DISPLAY_HEIGHT: usize = 32;

/// The byte-addressable memory size.
pub const MEMORY_SIZE: usize = 4096;

/// The first program address; everything below it belongs to the
/// interpreter (the font block lives at [0x050, 0x0A0)).
pub const PROGRAM_START: usize = 0x200;

/// The deepest the return-address stack may grow.
pub const STACK_LIMIT: usize = 16;

/// The interpreter and everything it owns.
pub struct Chip8 {
    /// Registers, index register, program counter, stack and timers.
    pub cpu: Cpu,
    /// The 4096-byte memory image.
    pub memory: Vec<u8>,
    /// The framebuffer, row-major, index `y * 64 + x`, each cell 0 or 1.
    /// Read-only for the presentation collaborator.
    pub display: Vec<u8>,
    /// The sixteen key states, written through `set_key`.
    pub keypad: Vec<bool>,
    /// The redraw-pending flag: set by the opcodes that touch the
    /// framebuffer, cleared only by the consumer that renders it.
    pub draw_flag: bool,
    /// The pseudorandom generator's state.
    pub rng: u64,
}

impl Chip8 {
    /// The machine in its mathematical form.
    pub open spec fn abs(&self) -> AbsState {
        AbsState {
            v: self.cpu.v@,
            i: self.cpu.i,
            pc: self.cpu.pc,
            stack: self.cpu.stack@,
            delay: self.cpu.delay_timer,
            sound: self.cpu.sound_timer,
            mem: self.memory@,
            disp: self.display@,
            keys: self.keypad@,
            draw: self.draw_flag,
            rng: self.rng,
        }
    }

    /// Structural validity, preserved by every operation.
    pub open spec fn wf(&self) -> bool {
        &&& self.cpu.wf()
        &&& abs_wf(self.abs())
    }

    /// A fresh machine: zeroed memory but for the font block, cleared
    /// framebuffer and keypad, fresh registers, and no redraw pending.
    pub fn new() -> (c: Chip8)
        ensures
            c.wf(),
            c.cpu.pc == 0x200,
            c.cpu.i == 0,
            c.cpu.stack@ == Seq::<u16>::empty(),
            c.cpu.delay_timer == 0,
            c.cpu.sound_timer == 0,
            forall|k: int| 0 <= k < 16 ==> c.cpu.v@[k] == 0,
            forall|a: int| 0 <= a < 80 ==> c.memory@[a] == 0,
            forall|a: int| 0 <= a < 80 ==> c.memory@[80 + a] == font_seq()[a],
            forall|a: int| 160 <= a < 4096 ==> c.memory@[a] == 0,
            forall|k: int| 0 <= k < 2048 ==> c.display@[k] == 0,
            forall|k: int| 0 <= k < 16 ==> !c.keypad@[k],
            !c.draw_flag,
    {
        let mut chip8 = Chip8 {
            cpu: Cpu::new(),
            memory: crate::util::filled(MEMORY_SIZE, 0u8),
            display: crate::util::filled(DISPLAY_WIDTH * DISPLAY_HEIGHT, 0u8),
            keypad: crate::util::filled(16, false),
            draw_flag: false,
            rng: 0x853c49e6748fea9b,
        };
        chip8.load_font_set();
        chip8
    }

    /// Copies the glyph table into memory at [0x050, 0x0A0), leaving
    /// every other byte and every other field as they were.
    fn load_font_set(&mut self)
        requires
            old(self).memory@.len() == 4096,
        ensures
            final(self).cpu == old(self).cpu,
            final(self).display == old(self).display,
            final(self).keypad == old(self).keypad,
            final(self).draw_flag == old(self).draw_flag,
            final(self).rng == old(self).rng,
            final(self).memory@.len() == 4096,
            forall|a: int| 0 <= a < 80 ==> final(self).memory@[80 + a] == font_seq()[a],
            forall|a: int|
                0 <= a < 4096 && !(80 <= a < 160) ==> final(self).memory@[a] == old(
                    self,
                ).memory@[a],
    {
        let font = font_set();
        let mut j: usize = 0;
        while j < 80
            invariant
                j <= 80,
                font@ == font_seq(),
                font@.len() == 80,
                self.memory@.len() == 4096,
                self.cpu == old(self).cpu,
                self.display == old(self).display,
                self.keypad == old(self).keypad,
                self.draw_flag == old(self).draw_flag,
                self.rng == old(self).rng,
                forall|a: int| 0 <= a < j ==> self.memory@[80 + a] == font_seq()[a],
                forall|a: int|
                    0 <= a < 4096 && !(80 <= a < 80 + j) ==> self.memory@[a] == old(
                        self,
                    ).memory@[a],
            decreases 80 - j,
        {
            self.memory.set(80 + j, font[j]);
            j = j + 1;
        }
    }

    /// Copies a program image into memory starting at 0x200. An image
    /// longer than the space past 0x200 is refused whole; nothing else
    /// is reset, so reloading a running machine is defined.
    pub fn load_rom(&mut self, bytes: &Vec<u8>) -> (r: Result<(), Chip8Error>)
        requires
            old(self).wf(),
        ensures
            final(self).wf(),
            bytes@.len() > 4096 - 0x200 ==> r == Err::<(), Chip8Error>(Chip8Error::RomTooLarge)
                && *final(self) == *old(self),
            bytes@.len() <= 4096 - 0x200 ==> r == Ok::<(), Chip8Error>(()) && final(self).abs()
                == (AbsState { mem: loaded_mem(old(self).abs().mem, bytes@), ..old(self).abs() }),
    {
        if bytes.len() > MEMORY_SIZE - PROGRAM_START {
            return Err(Chip8Error::RomTooLarge);
        }
        let mut j: usize = 0;
        while j < bytes.len()
            invariant
                j <= bytes@.len(),
                bytes@.len() <= 4096 - 0x200,
                self.memory@.len() == 4096,
                self.cpu == old(self).cpu,
                self.display == old(self).display,
                self.keypad == old(self).keypad,
                self.draw_flag == old(self).draw_flag,
                self.rng == old(self).rng,
                forall|a: int| 0x200 <= a < 0x200 + j ==> self.memory@[a] == bytes@[a - 0x200],
                forall|a: int|
                    0 <= a < 4096 && !(0x200 <= a < 0x200 + j) ==> self.memory@[a] == old(
                        self,
                    ).memory@[a],
            decreases bytes@.len() - j,
        {
            self.memory.set(PROGRAM_START + j, bytes[j]);
            j = j + 1;
        }
        proof {
            assert(self.abs().mem =~= loaded_mem(old(self).abs().mem, bytes@));
            assert(self.abs() =~= (AbsState {
                mem: loaded_mem(old(self).abs().mem, bytes@),
                ..old(self).abs()
            }));
        }
        Ok(())
    }

    /// Records one key's state, pressed or released.
    pub fn set_key(&mut self, key: u8, pressed: bool)
        requires
            old(self).wf(),
            key < 16,
        ensures
            final(self).wf(),
            final(self).abs() == (AbsState {
                keys: old(self).abs().keys.update(key as int, pressed),
                ..old(self).abs()
            }),
    {
        self.keypad.set(key as usize, pressed);
    }

    /// Reseeds the pseudorandom generator that CXNN draws from.
    pub fn seed_rng(&mut self, seed: u64)
        requires
            old(self).wf(),
        ensures
            final(self).wf(),
            final(self).abs() == (AbsState { rng: seed, ..old(self).abs() }),
    {
        self.rng = seed;
    }

    /// Moves both timers one step toward zero, stopping there.
    pub fn tick_timers(&mut self)
        requires
            old(self).wf(),
        ensures
            final(self).wf(),
            final(self).abs() == tick_spec(old(self).abs()),
    {
        if self.cpu.delay_timer > 0 {
            self.cpu.delay_timer = self.cpu.delay_timer - 1;
        }
        if self.cpu.sound_timer > 0 {
            self.cpu.sound_timer = self.cpu.sound_timer - 1;
        }
    }

    /// 00E0: clears every framebuffer cell and requests a redraw.
    pub fn clear_display(&mut self)
        requires
            old(self).wf(),
        ensures
            final(self).wf(),
            final(self).abs() == clear_spec(old(self).abs()),
    {
        let mut j: usize = 0;
        while j < DISPLAY_WIDTH * DISPLAY_HEIGHT
            invariant
                j <= 2048,
                self.display@.len() == 2048,
                self.cpu == old(self).cpu,
                self.memory == old(self).memory,
                self.keypad == old(self).keypad,
                self.draw_flag == old(self).draw_flag,
                self.rng == old(self).rng,
                forall|k: int| 0 <= k < j ==> self.display@[k] == 0,
                forall|k: int| j <= k < 2048 ==> self.display@[k] == old(self).display@[k],
            decreases 2048 - j,
        {
            self.display.set(j, 0);
            j = j + 1;
        }
        self.draw_flag = true;
        proof {
            assert(self.abs().disp =~= clear_spec(old(self).abs()).disp);
            assert(self.abs() =~= clear_spec(old(self).abs()));
        }
    }

    /// 00EE: pops the most recent return address into the program
    /// counter; fails with everything unchanged when the stack is empty.
    pub fn return_from_subroutine(&mut self) -> (r: Result<(), Chip8Error>)
        requires
            old(self).wf(),
        ensures
            final(self).wf(),
            final(self).abs() == ret_spec(old(self).abs()).post,
            old(self).cpu.stack@.len() == 0 ==> r == Err::<(), Chip8Error>(
                Chip8Error::StackUnderflow,
            ),
            old(self).cpu.stack@.len() > 0 ==> r == Ok::<(), Chip8Error>(()),
    {
        match self.cpu.stack.pop() {
            Some(addr) => {
                self.cpu.sp = self.cpu.sp - 1;
                self.cpu.pc = addr;
                Ok(())
            },
            None => Err(Chip8Error::StackUnderflow),
        }
    }

    /// 1NNN: an unconditional jump.
    pub fn jump(&mut self, addr: u16)
        requires
            old(self).wf(),
        ensures
            final(self).wf(),
            final(self).abs() == with_pc(old(self).abs(), addr),
    {
        self.cpu.pc = addr;
    }

    /// 2NNN: pushes the current program counter and jumps; fails with
    /// everything unchanged when sixteen return addresses are stacked.
    pub fn call_subroutine(&mut self, addr: u16) -> (r: Result<(), Chip8Error>)
        requires
            old(self).wf(),
        ensures
            final(self).wf(),
            final(self).abs() == call_spec(old(self).abs(), addr).post,
            old(self).cpu.stack@.len() >= 16 ==> r == Err::<(), Chip8Error>(
                Chip8Error::StackOverflow,
            ),
            old(self).cpu.stack@.len() < 16 ==> r == Ok::<(), Chip8Error>(()),
    {
        if self.cpu.stack.len() >= STACK_LIMIT {
            return Err(Chip8Error::StackOverflow);
        }
        self.cpu.sp = self.cpu.sp + 1;
        self.cpu.stack.push(self.cpu.pc);
        self.cpu.pc = addr;
        Ok(())
    }

    /// Moves the program counter past the next instruction, wrapping at
    /// the 16-bit boundary.
    fn advance_past_next(&mut self)
        requires
            old(self).wf(),
        ensures
            final(self).wf(),
            final(self).abs() == with_pc(old(self).abs(), pc_plus_2(old(self).cpu.pc)),
    {
        if self.cpu.pc < 0xFFFE {
            self.cpu.pc = self.cpu.pc + 2;
        } else {
            self.cpu.pc = self.cpu.pc - 0xFFFE;
        }
    }

    /// 3XNN: skips the next instruction if register `reg` holds `val`.
    pub fn skip_equal(&mut self, reg: u8, val: u8)
        requires
            old(self).wf(),
            reg < 16,
        ensures
            final(self).wf(),
            final(self).abs() == skip_if(old(self).abs(), old(self).cpu.v@[reg as int] == val),
    {
        if self.cpu.v[reg as usize] == val {
            self.advance_past_next();
        }
    }

    /// 4XNN: skips the next instruction if register `reg` differs from
    /// `val`.
    pub fn skip_not_equal(&mut self, reg: u8, val: u8)
        requires
            old(self).wf(),
            reg < 16,
        ensures
            final(self).wf(),
            final(self).abs() == skip_if(old(self).abs(), old(self).cpu.v@[reg as int] != val),
    {
        if self.cpu.v[reg as usize] != val {
            self.advance_past_next();
        }
    }

    /// 5XY0: skips the next instruction if the two registers agree.
    pub fn skip_equal_registers(&mut self, reg1: u8, reg2: u8)
        requires
            old(self).wf(),
            reg1 < 16,
            reg2 < 16,
        ensures
            final(self).wf(),
            final(self).abs() == skip_if(
                old(self).abs(),
                old(self).cpu.v@[reg1 as int] == old(self).cpu.v@[reg2 as int],
            ),
    {
        if self.cpu.v[reg1 as usize] == self.cpu.v[reg2 as usize] {
            self.advance_past_next();
        }
    }

    /// 9XY0: skips the next instruction if the two registers differ.
    pub fn skip_not_equal_registers(&mut self, reg1: u8, reg2: u8)
        requires
            old(self).wf(),
            reg1 < 16,
            reg2 < 16,
        ensures
            final(self).wf(),
            final(self).abs() == skip_if(
                old(self).abs(),
                old(self).cpu.v@[reg1 as int] != old(self).cpu.v@[reg2 as int],
            ),
    {
        if self.cpu.v[reg1 as usize] != self.cpu.v[reg2 as usize] {
            self.advance_past_next();
        }
    }

    /// 6XNN: sets register `reg` to `val`.
    pub fn load_register_vx(&mut self, reg: u8, val: u8)
        requires
            old(self).wf(),
            reg < 16,
        ensures
            final(self).wf(),
            final(self).abs() == with_reg(old(self).abs(), reg as int, val),
    {
        self.cpu.v.set(reg as usize, val);
    }

    /// 8XY0: copies register `reg2` into register `reg1`.
    pub fn set_registers(&mut self, reg1: u8, reg2: u8)
        requires
            old(self).wf(),
            reg1 < 16,
            reg2 < 16,
        ensures
            final(self).wf(),
            final(self).abs() == with_reg(
                old(self).abs(),
                reg1 as int,
                old(self).cpu.v@[reg2 as int],
            ),
    {
        let val = self.cpu.v[reg2 as usize];
        self.cpu.v.set(reg1 as usize, val);
    }

    /// 8XY1: bitwise OR of the two registers into the first.
    pub fn or_registers(&mut self, reg1: u8, reg2: u8)
        requires
            old(self).wf(),
            reg1 < 16,
            reg2 < 16,
        ensures
            final(self).wf(),
            final(self).abs() == with_reg(
                old(self).abs(),
                reg1 as int,
                old(self).cpu.v@[reg1 as int] | old(self).cpu.v@[reg2 as int],
            ),
    {
        let val = self.cpu.v[reg1 as usize] | self.cpu.v[reg2 as usize];
        self.cpu.v.set(reg1 as usize, val);
    }

    /// 8XY2: bitwise AND of the two registers into the first.
    pub fn and_registers(&mut self, reg1: u8, reg2: u8)
        requires
            old(self).wf(),
            reg1 < 16,
            reg2 < 16,
        ensures
            final(self).wf(),
            final(self).abs() == with_reg(
                old(self).abs(),
                reg1 as int,
                old(self).cpu.v@[reg1 as int] & old(self).cpu.v@[reg2 as int],
            ),
    {
        let val = self.cpu.v[reg1 as usize] & self.cpu.v[reg2 as usize];
        self.cpu.v.set(reg1 as usize, val);
    }

    /// 8XY3: bitwise XOR of the two registers into the first.
    pub fn xor_registers(&mut self, reg1: u8, reg2: u8)
        requires
            old(self).wf(),
            reg1 < 16,
            reg2 < 16,
        ensures
            final(self).wf(),
            final(self).abs() == with_reg(
                old(self).abs(),
                reg1 as int,
                old(self).cpu.v@[reg1 as int] ^ old(self).cpu.v@[reg2 as int],
            ),
    {
        let val = self.cpu.v[reg1 as usize] ^ self.cpu.v[reg2 as usize];
        self.cpu.v.set(reg1 as usize, val);
    }

    /// 7XNN: adds `val` to register `reg` modulo 256; no carry flag.
    pub fn add_value_to_register_vx(&mut self, reg: u8, val: u8)
        requires
            old(self).wf(),
            reg < 16,
        ensures
            final(self).wf(),
            final(self).abs() == add_imm_spec(old(self).abs(), reg as int, val),
    {
        let sum: u16 = self.cpu.v[reg as usize] as u16 + val as u16;
        self.cpu.v.set(reg as usize, (sum % 256) as u8);
    }

    /// DXYN: draws the `n`-row sprite read from memory at the index
    /// register, at the coordinates held in registers `inst_x` and
    /// `inst_y` taken modulo the display size. Each lit sprite bit
    /// toggles its cell, each axis wrapping independently at the
    /// display's edge; `v[0xF]` records whether any lit cell was
    /// toggled off, and a redraw is requested. Fails with nothing
    /// changed when the sprite's rows reach past the end of memory.
    pub fn draw_sprite_to_screen(&mut self, inst_x: u8, inst_y: u8, n: u8) -> (r: Result<
        (),
        Chip8Error,
    >)
        requires
            old(self).wf(),
            inst_x < 16,
            inst_y < 16,
            n < 16,
        ensures
            final(self).wf(),
            final(self).abs() == draw_spec(
                old(self).abs(),
                inst_x as int,
                inst_y as int,
                n as int,
            ).post,
            old(self).cpu.i + n > 4096 ==> r == Err::<(), Chip8Error>(
                Chip8Error::MemoryOutOfBounds,
            ),
            old(self).cpu.i + n <= 4096 ==> r == Ok::<(), Chip8Error>(()),
    {
        let ghost s0 = old(self).abs();
        if self.cpu.i as usize + n as usize > MEMORY_SIZE {
            return Err(Chip8Error::MemoryOutOfBounds);
        }
        let px0: u8 = self.cpu.v[inst_x as usize] % 64;
        let py0: u8 = self.cpu.v[inst_y as usize] % 32;
        let ghost px = px0 as int;
        let ghost py = py0 as int;
        let ghost nn = n as int;
        self.cpu.v.set(15, 0);
        proof {
            crate::semantics::lemma_draw_start(s0, px, py, nn);
            assert(self.abs().v =~= s0.v.update(15, 0u8));
            assert(draw_partial(s0, self.abs(), px, py, nn, 0, 0));
        }
        let mut row: u8 = 0;
        while row < n
            invariant
                abs_wf(s0),
                row <= n,
                n < 16,
                s0.i + n <= 4096,
                px0 as int == px,
                py0 as int == py,
                n as int == nn,
                0 <= px < 64,
                0 <= py < 32,
                self.cpu.v@.len() == 16,
                self.cpu.sp == old(self).cpu.sp,
                self.cpu.sp == self.cpu.stack@.len(),
                draw_partial(s0, self.abs(), px, py, nn, row as int, 0),
            decreases n - row,
        {
            let byte: u8 = self.memory[self.cpu.i as usize + row as usize];
            let mut b: u8 = 0;
            while b < 8
                invariant
                    abs_wf(s0),
                    row < n,
                    n < 16,
                    b <= 8,
                    s0.i + n <= 4096,
                    px0 as int == px,
                    py0 as int == py,
                    n as int == nn,
                    0 <= px < 64,
                    0 <= py < 32,
                    byte == s0.mem[s0.i + row as int],
                    self.cpu.v@.len() == 16,
                    self.cpu.sp == old(self).cpu.sp,
                    self.cpu.sp == self.cpu.stack@.len(),
                    draw_partial(s0, self.abs(), px, py, nn, row as int, b as int),
                decreases 8 - b,
            {
                let ghost pre = self.abs();
                let ghost rr = row as int;
                let ghost bb = b as int;
                if (byte >> (7 - b)) & 1 == 1 {
                    let sx: usize = px0 as usize + b as usize;
                    let cx: usize = if sx < 64 {
                        sx
                    } else {
                        sx - 64
                    };
                    let sy: usize = py0 as usize + row as usize;
                    let cy: usize = if sy < 32 {
                        sy
                    } else {
                        sy - 32
                    };
                    let idx: usize = cy * 64 + cx;
                    proof {
                        assert(cx as int == crate::semantics::wrap_w(px + bb));
                        assert(cy as int == crate::semantics::wrap_h(py + rr));
                        assert(idx as int == target_idx(px, py, rr, bb));
                        assert(sprite_bit(s0.mem[s0.i + rr], bb));
                        crate::semantics::lemma_frontier_lit(s0, px, py, nn, rr, bb);
                        // The cell is untouched so far, so it still holds
                        // its original value.
                        assert(pre.disp[idx as int] == s0.disp[idx as int]);
                    }
                    if self.display[idx] == 1 {
                        self.cpu.v.set(15, 1);
                        self.display.set(idx, 0);
                        proof {
                            assert(self.abs().v =~= s0.v.update(15, 1u8));
                            assert(draw_partial(s0, self.abs(), px, py, nn, rr, bb + 1));
                        }
                    } else {
                        self.display.set(idx, 1);
                        proof {
                            assert(s0.disp[idx as int] == 0);
                            assert(self.abs().v =~= pre.v);
                            assert(draw_partial(s0, self.abs(), px, py, nn, rr, bb + 1));
                        }
                    }
                } else {
                    proof {
                        assert(!sprite_bit(s0.mem[s0.i + rr], bb));
                        crate::semantics::lemma_frontier_unlit(s0, px, py, nn, rr, bb);
                        assert(draw_partial(s0, self.abs(), px, py, nn, rr, bb + 1));
                    }
                }
                b = b + 1;
            }
            proof {
                crate::semantics::lemma_row_end(s0, px, py, nn, row as int);
                assert(draw_partial(s0, self.abs(), px, py, nn, row as int + 1, 0));
            }
            row = row + 1;
        }
        self.draw_flag = true;
        proof {
            assert(self.display@ =~= draw_disp(s0, px, py, nn));
            assert(self.abs() =~= draw_spec(s0, inst_x as int, inst_y as int, nn).post);
        }
        Ok(())
    }

    /// 8XY4: adds register `reg2` into register `reg1` modulo 256, the
    /// carry landing in `v[0xF]` afterwards (so the flag wins when
    /// `reg1` is 0xF itself).
    pub fn add_registers(&mut self, reg1: u8, reg2: u8)
        requires
            old(self).wf(),
            reg1 < 16,
            reg2 < 16,
        ensures
            final(self).wf(),
            final(self).abs() == ({
                let s = old(self).abs();
                let sum = s.v[reg1 as int] + s.v[reg2 as int];
                with_reg(
                    with_reg(s, reg1 as int, (sum % 256) as u8),
                    15,
                    if sum > 255 {
                        1u8
                    } else {
                        0u8
                    },
                )
            }),
    {
        let sum: u16 = self.cpu.v[reg1 as usize] as u16 + self.cpu.v[reg2 as usize] as u16;
        let carry: u8 = if sum > 255 {
            1
        } else {
            0
        };
        self.cpu.v.set(reg1 as usize, (sum % 256) as u8);
        self.cpu.v.set(15, carry);
    }

    /// 8XY5: subtracts register `reg2` from register `reg1` modulo 256,
    /// `v[0xF]` set to 1 afterwards exactly when no borrow was needed.
    pub fn sub_registers(&mut self, reg1: u8, reg2: u8)
        requires
            old(self).wf(),
            reg1 < 16,
            reg2 < 16,
        ensures
            final(self).wf(),
            final(self).abs() == ({
                let s = old(self).abs();
                with_reg(
                    with_reg(s, reg1 as int, ((s.v[reg1 as int] - s.v[reg2 as int] + 256) % 256) as u8),
                    15,
                    if s.v[reg1 as int] >= s.v[reg2 as int] {
                        1u8
                    } else {
                        0u8
                    },
                )
            }),
    {
        let vx = self.cpu.v[reg1 as usize];
        let vy = self.cpu.v[reg2 as usize];
        let no_borrow: u8 = if vx >= vy {
            1
        } else {
            0
        };
        let diff: u16 = vx as u16 + 256 - vy as u16;
        self.cpu.v.set(reg1 as usize, (diff % 256) as u8);
        self.cpu.v.set(15, no_borrow);
    }

    /// 8XY7: sets register `reg1` to `reg2` minus `reg1` modulo 256,
    /// `v[0xF]` set to 1 afterwards exactly when no borrow was needed.
    pub fn sub_registers_reversed(&mut self, reg1: u8, reg2: u8)
        requires
            old(self).wf(),
            reg1 < 16,
            reg2 < 16,
        ensures
            final(self).wf(),
            final(self).abs() == ({
                let s = old(self).abs();
                with_reg(
                    with_reg(s, reg1 as int, ((s.v[reg2 as int] - s.v[reg1 as int] + 256) % 256) as u8),
                    15,
                    if s.v[reg2 as int] >= s.v[reg1 as int] {
                        1u8
                    } else {
                        0u8
                    },
                )
            }),
    {
        let vx = self.cpu.v[reg1 as usize];
        let vy = self.cpu.v[reg2 as usize];
        let no_borrow: u8 = if vy >= vx {
            1
        } else {
            0
        };
        let diff: u16 = vy as u16 + 256 - vx as u16;
        self.cpu.v.set(reg1 as usize, (diff % 256) as u8);
        self.cpu.v.set(15, no_borrow);
    }

    /// 8XY6: shifts register `reg` right by one, the lost bit landing
    /// in `v[0xF]` afterwards.
    pub fn shift_right_register(&mut self, reg: u8)
        requires
            old(self).wf(),
            reg < 16,
        ensures
            final(self).wf(),
            final(self).abs() == ({
                let s = old(self).abs();
                with_reg(with_reg(s, reg as int, s.v[reg as int] >> 1), 15, s.v[reg as int] & 1)
            }),
    {
        let vx = self.cpu.v[reg as usize];
        self.cpu.v.set(reg as usize, vx >> 1);
        self.cpu.v.set(15, vx & 1);
    }

    /// 8XYE: shifts register `reg` left by one modulo 256, the lost bit
    /// landing in `v[0xF]` afterwards.
    pub fn shift_left_register(&mut self, reg: u8)
        requires
            old(self).wf(),
            reg < 16,
        ensures
            final(self).wf(),
            final(self).abs() == ({
                let s = old(self).abs();
                with_reg(
                    with_reg(s, reg as int, ((s.v[reg as int] * 2) % 256) as u8),
                    15,
                    s.v[reg as int] >> 7,
                )
            }),
    {
        let vx = self.cpu.v[reg as usize];
        let doubled: u16 = vx as u16 * 2;
        self.cpu.v.set(reg as usize, (doubled % 256) as u8);
        self.cpu.v.set(15, vx >> 7);
    }

    /// FX0A: if some key is pressed, the lowest-numbered one lands in
    /// register `reg`; otherwise the program counter moves back onto
    /// this instruction and the step reports that it awaits input.
    pub fn wait_for_key(&mut self, reg: u8) -> (r: StepStatus)
        requires
            old(self).wf(),
            reg < 16,
        ensures
            final(self).wf(),
            final(self).abs() == wait_key_spec(old(self).abs(), reg as int).post,
            Ok::<StepStatus, Chip8Error>(r) == wait_key_spec(old(self).abs(), reg as int).result,
    {
        let mut k: u8 = 0;
        while k < 16
            invariant
                old(self).wf(),
                *self == *old(self),
                reg < 16,
                k <= 16,
                first_pressed_from(old(self).abs().keys, 0) == first_pressed_from(
                    old(self).abs().keys,
                    k as int,
                ),
            decreases 16 - k,
        {
            if self.keypad[k as usize] {
                proof {
                    assert(first_pressed_from(old(self).abs().keys, k as int) == Some(k));
                }
                self.cpu.v.set(reg as usize, k);
                proof {
                    assert(self.abs() =~= with_reg(old(self).abs(), reg as int, k));
                }
                return StepStatus::Executed;
            }
            k = k + 1;
        }
        if self.cpu.pc >= 2 {
            self.cpu.pc = self.cpu.pc - 2;
        } else {
            self.cpu.pc = self.cpu.pc + 0xFFFE;
        }
        StepStatus::AwaitingKey
    }

    /// FX33: writes the decimal digits of register `reg` at the index
    /// register, hundreds first; fails with nothing changed when the
    /// three bytes reach past the end of memory.
    pub fn store_decimal_digits(&mut self, reg: u8) -> (r: Result<(), Chip8Error>)
        requires
            old(self).wf(),
            reg < 16,
        ensures
            final(self).wf(),
            final(self).abs() == crate::semantics::bcd_spec(old(self).abs(), reg as int).post,
            old(self).cpu.i + 2 >= 4096 ==> r == Err::<(), Chip8Error>(
                Chip8Error::MemoryOutOfBounds,
            ),
            old(self).cpu.i + 2 < 4096 ==> r == Ok::<(), Chip8Error>(()),
    {
        if self.cpu.i as usize + 2 >= MEMORY_SIZE {
            return Err(Chip8Error::MemoryOutOfBounds);
        }
        let val = self.cpu.v[reg as usize];
        let base = self.cpu.i as usize;
        self.memory.set(base, val / 100);
        self.memory.set(base + 1, (val / 10) % 10);
        self.memory.set(base + 2, val % 10);
        Ok(())
    }

    /// FX55: stores registers 0 through `reg` to memory at the index
    /// register, which itself stays put; fails with nothing changed
    /// when the block reaches past the end of memory.
    pub fn store_registers(&mut self, reg: u8) -> (r: Result<(), Chip8Error>)
        requires
            old(self).wf(),
            reg < 16,
        ensures
            final(self).wf(),
            final(self).abs() == crate::semantics::store_spec(old(self).abs(), reg as int).post,
            old(self).cpu.i + reg >= 4096 ==> r == Err::<(), Chip8Error>(
                Chip8Error::MemoryOutOfBounds,
            ),
            old(self).cpu.i + reg < 4096 ==> r == Ok::<(), Chip8Error>(()),
    {
        if self.cpu.i as usize + reg as usize >= MEMORY_SIZE {
            return Err(Chip8Error::MemoryOutOfBounds);
        }
        let base = self.cpu.i as usize;
        let mut k: u8 = 0;
        while k <= reg
            invariant
                old(self).wf(),
                reg < 16,
                k <= reg + 1,
                base == old(self).cpu.i as int,
                base + reg < 4096,
                self.cpu == old(self).cpu,
                self.display == old(self).display,
                self.keypad == old(self).keypad,
                self.draw_flag == old(self).draw_flag,
                self.rng == old(self).rng,
                self.memory@.len() == 4096,
                forall|a: int|
                    base <= a < base + k ==> self.memory@[a] == old(self).cpu.v@[a - base],
                forall|a: int|
                    0 <= a < 4096 && !(base <= a < base + k) ==> self.memory@[a] == old(
                        self,
                    ).memory@[a],
            decreases reg + 1 - k,
        {
            self.memory.set(base + k as usize, self.cpu.v[k as usize]);
            k = k + 1;
        }
        proof {
            assert(self.abs().mem =~= stored_mem(old(self).abs(), reg as int));
            assert(self.abs() =~= (AbsState {
                mem: stored_mem(old(self).abs(), reg as int),
                ..old(self).abs()
            }));
        }
        Ok(())
    }

    /// FX65: loads registers 0 through `reg` from memory at the index
    /// register, which itself stays put; fails with nothing changed
    /// when the block reaches past the end of memory.
    pub fn load_registers(&mut self, reg: u8) -> (r: Result<(), Chip8Error>)
        requires
            old(self).wf(),
            reg < 16,
        ensures
            final(self).wf(),
            final(self).abs() == crate::semantics::load_spec(old(self).abs(), reg as int).post,
            old(self).cpu.i + reg >= 4096 ==> r == Err::<(), Chip8Error>(
                Chip8Error::MemoryOutOfBounds,
            ),
            old(self).cpu.i + reg < 4096 ==> r == Ok::<(), Chip8Error>(()),
    {
        if self.cpu.i as usize + reg as usize >= MEMORY_SIZE {
            return Err(Chip8Error::MemoryOutOfBounds);
        }
        let base = self.cpu.i as usize;
        let mut k: u8 = 0;
        while k <= reg
            invariant
                old(self).wf(),
                reg < 16,
                k <= reg + 1,
                base == old(self).cpu.i as int,
                base + reg < 4096,
                self.cpu.i == old(self).cpu.i,
                self.cpu.pc == old(self).cpu.pc,
                self.cpu.sp == old(self).cpu.sp,
                self.cpu.stack == old(self).cpu.stack,
                self.cpu.delay_timer == old(self).cpu.delay_timer,
                self.cpu.sound_timer == old(self).cpu.sound_timer,
                self.memory == old(self).memory,
                self.display == old(self).display,
                self.keypad == old(self).keypad,
                self.draw_flag == old(self).draw_flag,
                self.rng == old(self).rng,
                self.cpu.v@.len() == 16,
                forall|m: int| 0 <= m < k ==> self.cpu.v@[m] == old(self).memory@[base + m],
                forall|m: int| k <= m < 16 ==> self.cpu.v@[m] == old(self).cpu.v@[m],
            decreases reg + 1 - k,
        {
            let byte = self.memory[base + k as usize];
            self.cpu.v.set(k as usize, byte);
            k = k + 1;
        }
        proof {
            assert(self.abs().v =~= loaded_regs(old(self).abs(), reg as int));
            assert(self.abs() =~= (AbsState {
                v: loaded_regs(old(self).abs(), reg as int),
                ..old(self).abs()
            }));
        }
        Ok(())
    }

    /// One fetch-decode-execute step, atomic to the caller: the two
    /// bytes at the program counter are fetched big-endian, the counter
    /// moves past them, and the opcode's effect is applied — exactly
    /// the transition `step_spec` describes. A fetch that would read
    /// past memory fails with nothing changed; an undefined bit pattern
    /// fails with the raw opcode reported and only the counter moved;
    /// the key-wait opcode reports `AwaitingKey` instead of blocking.
    #[verifier::rlimit(50)]
    pub fn emulate_cycle(&mut self) -> (r: Result<StepStatus, Chip8Error>)
        requires
            old(self).wf(),
        ensures
            final(self).wf(),
            final(self).abs() == crate::semantics::step_spec(old(self).abs()).post,
            r == crate::semantics::step_spec(old(self).abs()).result,
    {
        let ghost s0 = old(self).abs();
        if self.cpu.pc as usize + 1 >= MEMORY_SIZE {
            return Err(Chip8Error::MemoryOutOfBounds);
        }
        let hi = self.memory[self.cpu.pc as usize];
        let lo = self.memory[self.cpu.pc as usize + 1];
        let opcode: u16 = ((hi as u16) << 8) | (lo as u16);
        self.cpu.pc = self.cpu.pc + 2;
        let ghost s1 = self.abs();
        let fam: u16 = opcode >> 12;
        let x: u8 = ((opcode >> 8) & 0xF) as u8;
        let y: u8 = ((opcode >> 4) & 0xF) as u8;
        let n: u8 = (opcode & 0xF) as u8;
        let nn: u8 = (opcode & 0xFF) as u8;
        let nnn: u16 = opcode & 0xFFF;
        proof {
            assert(opcode == crate::semantics::fetched(s0));
            assert((opcode >> 12) < 16) by (bit_vector);
            assert(((opcode >> 8) & 0xF) < 16) by (bit_vector);
            assert(((opcode >> 4) & 0xF) < 16) by (bit_vector);
            assert((opcode & 0xF) < 16) by (bit_vector);
            assert((opcode & 0xFF) < 256) by (bit_vector);
            assert((opcode & 0xFFF) < 0x1000) by (bit_vector);
            assert(((opcode & 0xFFF) & 0xFFF) == (opcode & 0xFFF)) by (bit_vector);
            assert(s1 =~= with_pc(s0, (s0.pc + 2) as u16));
        }
        if fam == 0 {
            if opcode == 0x00E0 {
                self.clear_display();
                Ok(StepStatus::Executed)
            } else if opcode == 0x00EE {
                match self.return_from_subroutine() {
                    Ok(()) => Ok(StepStatus::Executed),
                    Err(e) => Err(e),
                }
            } else {
                Err(Chip8Error::UnknownOpcode(opcode))
            }
        } else if fam == 1 {
            self.jump(nnn);
            Ok(StepStatus::Executed)
        } else if fam == 2 {
            match self.call_subroutine(nnn) {
                Ok(()) => Ok(StepStatus::Executed),
                Err(e) => Err(e),
            }
        } else if fam == 3 {
            self.skip_equal(x, nn);
            Ok(StepStatus::Executed)
        } else if fam == 4 {
            self.skip_not_equal(x, nn);
            Ok(StepStatus::Executed)
        } else if fam == 5 {
            if n == 0 {
                self.skip_equal_registers(x, y);
                Ok(StepStatus::Executed)
            } else {
                Err(Chip8Error::UnknownOpcode(opcode))
            }
        } else if fam == 6 {
            self.load_register_vx(x, nn);
            Ok(StepStatus::Executed)
        } else if fam == 7 {
            self.add_value_to_register_vx(x, nn);
            Ok(StepStatus::Executed)
        } else if fam == 8 {
            if n == 0 {
                self.set_registers(x, y);
                Ok(StepStatus::Executed)
            } else if n == 1 {
                self.or_registers(x, y);
                Ok(StepStatus::Executed)
            } else if n == 2 {
                self.and_registers(x, y);
                Ok(StepStatus::Executed)
            } else if n == 3 {
                self.xor_registers(x, y);
                Ok(StepStatus::Executed)
            } else if n == 4 {
                self.add_registers(x, y);
                Ok(StepStatus::Executed)
            } else if n == 5 {
                self.sub_registers(x, y);
                Ok(StepStatus::Executed)
            } else if n == 6 {
                self.shift_right_register(x);
                Ok(StepStatus::Executed)
            } else if n == 7 {
                self.sub_registers_reversed(x, y);
                Ok(StepStatus::Executed)
            } else if n == 0xE {
                self.shift_left_register(x);
                Ok(StepStatus::Executed)
            } else {
                Err(Chip8Error::UnknownOpcode(opcode))
            }
        } else if fam == 9 {
            if n == 0 {
                self.skip_not_equal_registers(x, y);
                Ok(StepStatus::Executed)
            } else {
                Err(Chip8Error::UnknownOpcode(opcode))
            }
        } else if fam == 0xA {
            self.set_index_register(nnn);
            Ok(StepStatus::Executed)
        } else if fam == 0xB {
            let target: u16 = nnn + self.cpu.v[0] as u16;
            self.jump(target);
            Ok(StepStatus::Executed)
        } else if fam == 0xC {
            let r0 = self.rng;
            let a = r0 ^ (r0 << 13);
            let b2 = a ^ (a >> 7);
            let r2 = b2 ^ (b2 << 17);
            self.rng = r2;
            let byte: u8 = (r2 & 0xFF) as u8;
            self.load_register_vx(x, byte & nn);
            proof {
                assert(self.abs() =~= crate::semantics::rand_spec(s1, x as int, nn));
            }
            Ok(StepStatus::Executed)
        } else if fam == 0xD {
            match self.draw_sprite_to_screen(x, y, n) {
                Ok(()) => Ok(StepStatus::Executed),
                Err(e) => Err(e),
            }
        } else if fam == 0xE {
            let vx = self.cpu.v[x as usize];
            let key: u8 = vx & 0xF;
            proof {
                assert(vx & 0xF < 16) by (bit_vector);
            }
            if nn == 0x9E {
                if self.keypad[key as usize] {
                    self.advance_past_next();
                }
                Ok(StepStatus::Executed)
            } else if nn == 0xA1 {
                if !self.keypad[key as usize] {
                    self.advance_past_next();
                }
                Ok(StepStatus::Executed)
            } else {
                Err(Chip8Error::UnknownOpcode(opcode))
            }
        } else {
            if nn == 0x07 {
                let d = self.cpu.delay_timer;
                self.load_register_vx(x, d);
                Ok(StepStatus::Executed)
            } else if nn == 0x0A {
                let status = self.wait_for_key(x);
                Ok(status)
            } else if nn == 0x15 {
                self.cpu.delay_timer = self.cpu.v[x as usize];
                proof {
                    assert(self.abs() =~= (AbsState { delay: s1.v[x as int], ..s1 }));
                }
                Ok(StepStatus::Executed)
            } else if nn == 0x18 {
                self.cpu.sound_timer = self.cpu.v[x as usize];
                proof {
                    assert(self.abs() =~= (AbsState { sound: s1.v[x as int], ..s1 }));
                }
                Ok(StepStatus::Executed)
            } else if nn == 0x1E {
                let t: u16 = self.cpu.i + self.cpu.v[x as usize] as u16;
                self.cpu.i = t % 0x1000;
                proof {
                    assert(self.abs() =~= (AbsState {
                        i: ((s1.i + s1.v[x as int]) % 0x1000) as u16,
                        ..s1
                    }));
                }
                Ok(StepStatus::Executed)
            } else if nn == 0x29 {
                let vx = self.cpu.v[x as usize];
                let glyph: u8 = vx & 0xF;
                proof {
                    assert(vx & 0xF < 16) by (bit_vector);
                }
                self.cpu.i = 0x50 + 5 * (glyph as u16);
                proof {
                    assert(self.abs() =~= (AbsState {
                        i: (0x50 + 5 * (s1.v[x as int] & 0xF)) as u16,
                        ..s1
                    }));
                }
                Ok(StepStatus::Executed)
            } else if nn == 0x33 {
                match self.store_decimal_digits(x) {
                    Ok(()) => Ok(StepStatus::Executed),
                    Err(e) => Err(e),
                }
            } else if nn == 0x55 {
                match self.store_registers(x) {
                    Ok(()) => Ok(StepStatus::Executed),
                    Err(e) => Err(e),
                }
            } else if nn == 0x65 {
                match self.load_registers(x) {
                    Ok(()) => Ok(StepStatus::Executed),
                    Err(e) => Err(e),
                }
            } else {
                Err(Chip8Error::UnknownOpcode(opcode))
            }
        }
    }

    /// ANNN: sets the index register, which stays within 12 bits.
    pub fn set_index_register(&mut self, val: u16)
        requires
            old(self).wf(),
        ensures
            final(self).wf(),
            final(self).abs() == (AbsState { i: val & 0xFFF, ..old(self).abs() }),
    {
        proof {
            assert(val & 0xFFF < 0x1000) by (bit_vector);
        }
        self.cpu.i = val & 0xFFF;
    }
}

} // verus!
