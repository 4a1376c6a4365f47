//! The register file and control state of the machine.

use vstd::prelude::*;
use crate::util::filled;

verus! {

/// Mutable register/stack/timer state, exclusively owned by the
/// interpreter that drives it. A pure data container: all invariants
/// are enforced by the interpreter's operations.
pub struct Cpu {
    /// Sixteen 8-bit general registers `v[0x0]..v[0xF]`; `v[0xF]` doubles
    /// as the carry/borrow/collision flag of several opcodes.
    pub v: Vec<u8>,
    /// 16-bit index register, kept within 12 bits.
    pub i: u16,
    /// 16-bit program counter; programs start at 0x200.
    pub pc: u16,
    /// Count of stack entries, kept equal to `stack.len()`.
    pub sp: u8,
    /// Return-address stack, never deeper than 16 entries.
    pub stack: Vec<u16>,
    /// Countdown timer, decremented toward zero once per timer tick.
    pub delay_timer: u8,
    /// Countdown timer for the sound signal, decremented the same way.
    pub sound_timer: u8,
}

impl Cpu {
    /// Structural validity: register count, stack bound, a stack pointer
    /// that mirrors the stack's length, and an index register within
    /// the 12-bit address space.
    pub open spec fn wf(&self) -> bool {
        &&& self.v@.len() == 16
        &&& self.stack@.len() <= 16
        &&& self.sp == self.stack@.len()
        &&& self.i <= 0xFFF
    }

    /// Fresh state: zeroed registers and timers, empty stack, and the
    /// program counter at 0x200, the first program address.
    pub fn new() -> (c: Cpu)
        ensures
            c.wf(),
            c.v@.len() == 16,
            forall|k: int| 0 <= k < 16 ==> c.v@[k] == 0,
            c.i == 0,
            c.pc == 0x200,
            c.stack@ == Seq::<u16>::empty(),
            c.delay_timer == 0,
            c.sound_timer == 0,
    {
        let c = Cpu {
            v: filled(16, 0u8),
            i: 0,
            sp: 0,
            stack: Vec::new(),
            sound_timer: 0,
            delay_timer: 0,
            pc: 0x200,
        };
        proof {
            assert(c.stack@ =~= Seq::<u16>::empty());
        }
        c
    }
}

} // verus!
