//! Laws of the instruction set, proved once and for all over the
//! abstract machine: how calls and returns pair up, how the stack
//! bounds fail, what clearing and drawing do to the framebuffer, and
//! that the register-block store and load round-trip through memory.

use vstd::prelude::*;
use crate::semantics::{
    abs_wf, collision_upto, draw_collision, draw_spec, fetched, flip,
    lemma_hit_depends_on_sprite, load_spec, op_nnn, sprite_hit, step_spec, store_spec, tick_spec,
    with_pc, AbsState, Chip8Error, StepStatus,
};

verus! {

/// Law: a step of opcode 7XNN adds NN to `v[X]` modulo 256 and carries
/// nothing, whatever `v[X]` held before.
pub proof fn lemma_add_immediate_step(s: AbsState, x: int, m: u8)
    requires
        abs_wf(s),
        0 <= x < 16,
        s.pc + 1 < 4096,
        s.mem[s.pc as int] == (0x70 + x) as u8,
        s.mem[s.pc as int + 1] == m,
    ensures
        step_spec(s).result == Ok::<StepStatus, Chip8Error>(StepStatus::Executed),
        step_spec(s).post.v[x] == (s.v[x] + m) % 256,
{
    let xb: u8 = x as u8;
    let hi: u8 = (0x70 + x) as u8;
    let op: u16 = ((hi as u16) << 8) | (m as u16);
    assert(op >> 12 == 7 && (op >> 8) & 0xF == xb as u16 && (op & 0xFF) == m as u16)
        by (bit_vector)
        requires
            xb < 16,
            hi == (0x70 + xb) as u8,
            op == ((hi as u16) << 8) | (m as u16),
    ;
    assert(fetched(s) == op);
}

/// Law: a call then a return round-trip. A step of 2NNN from a state
/// with room on the stack jumps to NNN; when 00EE stands there, the
/// next step restores the program counter to the instruction after the
/// call and the stack to what it was.
pub proof fn lemma_call_return_roundtrip(s: AbsState)
    requires
        abs_wf(s),
        s.pc + 1 < 4096,
        fetched(s) >> 12 == 2,
        s.stack.len() < 16,
        op_nnn(fetched(s)) + 1 < 4096,
        s.mem[op_nnn(fetched(s)) as int] == 0x00,
        s.mem[op_nnn(fetched(s)) as int + 1] == 0xEE,
    ensures
        step_spec(s).result == Ok::<StepStatus, Chip8Error>(StepStatus::Executed),
        step_spec(s).post.pc == op_nnn(fetched(s)),
        step_spec(step_spec(s).post).result == Ok::<StepStatus, Chip8Error>(StepStatus::Executed),
        step_spec(step_spec(s).post).post.pc == s.pc + 2,
        step_spec(step_spec(s).post).post.stack == s.stack,
{
    let op = fetched(s);
    let target = op_nnn(op);
    assert(op & 0xFFF < 0x1000) by (bit_vector);
    let s1 = step_spec(s).post;
    assert(s1.pc == target);
    assert(s1.stack =~= s.stack.push((s.pc + 2) as u16));
    let op2 = fetched(s1);
    assert(op2 == ((0x00u8 as u16) << 8) | (0xEEu8 as u16));
    assert((((0x00u8 as u16) << 8) | (0xEEu8 as u16)) == 0x00EEu16) by (bit_vector);
    assert(0x00EEu16 >> 12 == 0) by (bit_vector);
    let s2 = step_spec(s1).post;
    assert(s2.pc == s1.stack.last());
    assert(s2.stack =~= s.stack);
}

/// Law: a call with sixteen return addresses already stacked fails with
/// a stack overflow, only the program counter having moved past the
/// instruction.
pub proof fn lemma_stack_overflow(s: AbsState)
    requires
        abs_wf(s),
        s.pc + 1 < 4096,
        fetched(s) >> 12 == 2,
        s.stack.len() == 16,
    ensures
        step_spec(s).result == Err::<StepStatus, Chip8Error>(Chip8Error::StackOverflow),
        step_spec(s).post == with_pc(s, (s.pc + 2) as u16),
{
}

/// Law: a return with an empty stack fails with a stack underflow, only
/// the program counter having moved past the instruction.
pub proof fn lemma_stack_underflow(s: AbsState)
    requires
        abs_wf(s),
        s.pc + 1 < 4096,
        fetched(s) == 0x00EE,
        s.stack.len() == 0,
    ensures
        step_spec(s).result == Err::<StepStatus, Chip8Error>(Chip8Error::StackUnderflow),
        step_spec(s).post == with_pc(s, (s.pc + 2) as u16),
{
    assert(0x00EEu16 >> 12 == 0) by (bit_vector);
}

/// Law: a step of 00E0 leaves every framebuffer cell zero and the
/// redraw flag set.
pub proof fn lemma_clear_step(s: AbsState)
    requires
        abs_wf(s),
        s.pc + 1 < 4096,
        fetched(s) == 0x00E0,
    ensures
        step_spec(s).result == Ok::<StepStatus, Chip8Error>(StepStatus::Executed),
        forall|k: int| 0 <= k < 2048 ==> step_spec(s).post.disp[k] == 0,
        step_spec(s).post.draw,
{
    assert(0x00E0u16 >> 12 == 0) by (bit_vector);
}

/// Law: a timer already at zero stays at zero across a tick; a running
/// timer moves down by exactly one.
pub proof fn lemma_timer_floor(s: AbsState)
    ensures
        s.delay == 0 ==> tick_spec(s).delay == 0,
        s.delay > 0 ==> tick_spec(s).delay == s.delay - 1,
        s.sound == 0 ==> tick_spec(s).sound == 0,
        s.sound > 0 ==> tick_spec(s).sound == s.sound - 1,
{
}

/// Law: drawing the same sprite at the same spot twice toggles every
/// hit cell back, so the framebuffer returns to where it started; and
/// the second draw reports a collision exactly when the first draw lit
/// some cell that was dark. The coordinate registers must not be
/// `v[0xF]`, which the first draw overwrites with its collision flag.
pub proof fn lemma_draw_twice(s: AbsState, x: int, y: int, n: int)
    requires
        abs_wf(s),
        0 <= x < 16,
        0 <= y < 16,
        0 <= n < 16,
        x != 15,
        y != 15,
        s.i + n <= 4096,
    ensures
        draw_succeeds(s, x, y, n),
        draw_succeeds(draw_spec(s, x, y, n).post, x, y, n),
        draw_spec(draw_spec(s, x, y, n).post, x, y, n).post.disp == s.disp,
        draw_spec(draw_spec(s, x, y, n).post, x, y, n).post.v[15] == 1 <==> exists|idx: int|
            0 <= idx < 2048 && #[trigger] sprite_hit(
                s,
                s.v[x] as int % 64,
                s.v[y] as int % 32,
                n,
                idx,
            ) && s.disp[idx] == 0,
{
    let px = s.v[x] as int % 64;
    let py = s.v[y] as int % 32;
    let s1 = draw_spec(s, x, y, n).post;
    assert(s1.v[x] == s.v[x] && s1.v[y] == s.v[y]);
    lemma_hit_depends_on_sprite(s1, s, px, py, n, n, 0);
    let s2 = draw_spec(s1, x, y, n).post;
    assert forall|idx: int| 0 <= idx < 2048 implies s2.disp[idx] == s.disp[idx] by {
        assert(s.disp[idx] == 0 || s.disp[idx] == 1);
        if sprite_hit(s, px, py, n, idx) {
            assert(s1.disp[idx] == flip(s.disp[idx]));
            assert(s2.disp[idx] == flip(flip(s.disp[idx])));
        } else {
            assert(s1.disp[idx] == s.disp[idx]);
            assert(s2.disp[idx] == s.disp[idx]);
        }
    }
    assert(s2.disp =~= s.disp);
    if draw_collision(s1, px, py, n) {
        let idx = choose|idx: int|
            0 <= idx < 2048 && #[trigger] crate::semantics::sprite_hit_upto(
                s1,
                px,
                py,
                n,
                n,
                0,
                idx,
            ) && s1.disp[idx] == 1;
        assert(sprite_hit(s, px, py, n, idx));
        assert(s1.disp[idx] == flip(s.disp[idx]));
        assert(s.disp[idx] == 0 || s.disp[idx] == 1);
        assert(s.disp[idx] == 0);
    }
    if exists|idx: int|
        0 <= idx < 2048 && #[trigger] sprite_hit(s, px, py, n, idx) && s.disp[idx] == 0 {
        let idx = choose|idx: int|
            0 <= idx < 2048 && #[trigger] sprite_hit(s, px, py, n, idx) && s.disp[idx] == 0;
        assert(s1.disp[idx] == flip(s.disp[idx]));
        assert(s1.disp[idx] == 1);
        assert(crate::semantics::sprite_hit_upto(s1, px, py, n, n, 0, idx));
        assert(collision_upto(s1, px, py, n, n, 0));
    }
}

/// Whether a draw of `n` rows succeeds from state `s`.
pub open spec fn draw_succeeds(s: AbsState, x: int, y: int, n: int) -> bool {
    draw_spec(s, x, y, n).result == Ok::<StepStatus, Chip8Error>(StepStatus::Executed)
}

/// Law: storing registers 0 through `x` to memory, then scrambling the
/// registers however, then loading the block back restores registers 0
/// through `x` exactly; the index register never moves.
pub proof fn lemma_store_load_roundtrip(s: AbsState, x: int, scrambled: Seq<u8>)
    requires
        abs_wf(s),
        0 <= x < 16,
        s.i + x < 4096,
        scrambled.len() == 16,
    ensures
        store_spec(s, x).result == Ok::<StepStatus, Chip8Error>(StepStatus::Executed),
        ({
            let wiped = AbsState { v: scrambled, ..store_spec(s, x).post };
            &&& load_spec(wiped, x).result == Ok::<StepStatus, Chip8Error>(StepStatus::Executed)
            &&& (forall|k: int| 0 <= k <= x ==> load_spec(wiped, x).post.v[k] == s.v[k])
            &&& load_spec(wiped, x).post.i == s.i
        }),
{
    let stored = store_spec(s, x).post;
    let wiped = AbsState { v: scrambled, ..stored };
    assert forall|k: int| 0 <= k <= x implies load_spec(wiped, x).post.v[k] == s.v[k] by {
        assert(wiped.mem[wiped.i + k] == s.v[k]);
    }
}

} // verus!
