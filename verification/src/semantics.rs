//! The machine as mathematics: an abstract state of sequences and
//! integers, and one transition function per opcode family. The
//! interpreter's contracts say that each step computes exactly what
//! these functions describe.

use vstd::prelude::*;

verus! {

/// Fatal interpreter errors. None is recoverable: the interpreter
/// surfaces them to its caller, which decides whether to halt.
#[derive(Clone, Copy, Debug, PartialEq, Eq, Structural)]
pub enum Chip8Error {
    /// The program image exceeds the memory past the program start.
    RomTooLarge,
    /// A fetch or memory-indexed opcode addressed outside [0, 4096).
    MemoryOutOfBounds,
    /// A call arrived with sixteen return addresses already stacked.
    StackOverflow,
    /// A return was executed with an empty stack.
    StackUnderflow,
    /// The fetched bit pattern matches no instruction; carries the raw
    /// opcode for diagnostics.
    UnknownOpcode(u16),
}

/// What a successful step reports back to the driving loop.
#[derive(Clone, Copy, Debug, PartialEq, Eq, Structural)]
pub enum StepStatus {
    /// An instruction was fetched, decoded and executed.
    Executed,
    /// The key-wait opcode found no key pressed; the program counter is
    /// back on that instruction and the caller should step again once a
    /// key event arrives.
    AwaitingKey,
}

/// The whole machine, in mathematical form.
#[verifier::ext_equal]
pub ghost struct AbsState {
    /// The sixteen 8-bit registers.
    pub v: Seq<u8>,
    /// The 12-bit index register.
    pub i: u16,
    /// The program counter.
    pub pc: u16,
    /// The return-address stack, most recent call last.
    pub stack: Seq<u16>,
    /// The delay timer.
    pub delay: u8,
    /// The sound timer.
    pub sound: u8,
    /// The 4096 bytes of memory.
    pub mem: Seq<u8>,
    /// The 64x32 framebuffer, row-major, each cell 0 or 1.
    pub disp: Seq<u8>,
    /// The sixteen key states.
    pub keys: Seq<bool>,
    /// The redraw-pending flag.
    pub draw: bool,
    /// The pseudorandom generator's state.
    pub rng: u64,
}

/// Structural validity of an abstract state.
pub open spec fn abs_wf(s: AbsState) -> bool {
    &&& s.v.len() == 16
    &&& s.mem.len() == 4096
    &&& s.disp.len() == 2048
    &&& (forall|k: int| 0 <= k < 2048 ==> s.disp[k] == 0 || s.disp[k] == 1)
    &&& s.keys.len() == 16
    &&& s.stack.len() <= 16
    &&& s.i <= 0xFFF
}

/// One step's full result: the machine afterwards and what the step
/// returned.
#[verifier::ext_equal]
pub ghost struct StepOutcome {
    pub post: AbsState,
    pub result: Result<StepStatus, Chip8Error>,
}

/// A step that executed an ordinary instruction and left state `s`.
pub open spec fn stepped(s: AbsState) -> StepOutcome {
    StepOutcome { post: s, result: Ok(StepStatus::Executed) }
}

/// A step that failed with `e`, leaving state `s` as it stood.
pub open spec fn failed(s: AbsState, e: Chip8Error) -> StepOutcome {
    StepOutcome { post: s, result: Err(e) }
}

/// Nibble X of an opcode: bits 8-11, the first register selector.
pub open spec fn op_x(op: u16) -> int {
    ((op >> 8) & 0xF) as int
}

/// Nibble Y of an opcode: bits 4-7, the second register selector.
pub open spec fn op_y(op: u16) -> int {
    ((op >> 4) & 0xF) as int
}

/// The lowest nibble of an opcode.
pub open spec fn op_n(op: u16) -> int {
    (op & 0xF) as int
}

/// The low byte of an opcode.
pub open spec fn op_nn(op: u16) -> u8 {
    (op & 0xFF) as u8
}

/// The low 12 bits of an opcode: an address.
pub open spec fn op_nnn(op: u16) -> u16 {
    op & 0xFFF
}

/// The program counter two bytes on, wrapping at the 16-bit boundary.
pub open spec fn pc_plus_2(pc: u16) -> u16 {
    if pc < 0xFFFE {
        (pc + 2) as u16
    } else {
        (pc - 0xFFFE) as u16
    }
}

/// The program counter two bytes back, wrapping at the 16-bit boundary.
pub open spec fn pc_minus_2(pc: u16) -> u16 {
    if pc >= 2 {
        (pc - 2) as u16
    } else {
        (pc + 0xFFFE) as u16
    }
}

/// State `s` with the program counter at `pc`.
pub open spec fn with_pc(s: AbsState, pc: u16) -> AbsState {
    AbsState { pc, ..s }
}

/// State `s` with its program counter moved past one instruction, the
/// effect of every "skip next" opcode whose test holds.
pub open spec fn skip_if(s: AbsState, cond: bool) -> AbsState {
    if cond {
        with_pc(s, pc_plus_2(s.pc))
    } else {
        s
    }
}

/// State `s` with register `x` set to `val`.
pub open spec fn with_reg(s: AbsState, x: int, val: u8) -> AbsState {
    AbsState { v: s.v.update(x, val), ..s }
}

/// 00E0: every framebuffer cell cleared and a redraw requested.
pub open spec fn clear_spec(s: AbsState) -> AbsState {
    AbsState { disp: Seq::new(2048, |idx: int| 0u8), draw: true, ..s }
}

/// 00EE: the most recent return address popped into the program
/// counter; fails when the stack is empty.
pub open spec fn ret_spec(s: AbsState) -> StepOutcome {
    if s.stack.len() == 0 {
        failed(s, Chip8Error::StackUnderflow)
    } else {
        stepped(AbsState { pc: s.stack.last(), stack: s.stack.drop_last(), ..s })
    }
}

/// 2NNN: the current program counter pushed, then a jump to NNN; fails
/// when sixteen return addresses are already stacked.
pub open spec fn call_spec(s: AbsState, addr: u16) -> StepOutcome {
    if s.stack.len() >= 16 {
        failed(s, Chip8Error::StackOverflow)
    } else {
        stepped(AbsState { stack: s.stack.push(s.pc), pc: addr, ..s })
    }
}

/// 7XNN: register `x` increased by `nn` modulo 256, no carry flag.
pub open spec fn add_imm_spec(s: AbsState, x: int, nn: u8) -> AbsState {
    with_reg(s, x, ((s.v[x] + nn) % 256) as u8)
}

/// 8XY0..8XYE: the register-register ALU family. The carry, borrow and
/// lost-bit flags land in `v[0xF]` after the result lands in `v[x]`, so
/// the flag wins when `x` is 0xF itself.
pub open spec fn alu_spec(s: AbsState, op: u16) -> StepOutcome {
    let x = op_x(op);
    let y = op_y(op);
    let k = op_n(op);
    if k == 0 {
        stepped(with_reg(s, x, s.v[y]))
    } else if k == 1 {
        stepped(with_reg(s, x, s.v[x] | s.v[y]))
    } else if k == 2 {
        stepped(with_reg(s, x, s.v[x] & s.v[y]))
    } else if k == 3 {
        stepped(with_reg(s, x, s.v[x] ^ s.v[y]))
    } else if k == 4 {
        let sum = s.v[x] + s.v[y];
        let carry: u8 = if sum > 255 { 1 } else { 0 };
        stepped(with_reg(with_reg(s, x, (sum % 256) as u8), 15, carry))
    } else if k == 5 {
        let no_borrow: u8 = if s.v[x] >= s.v[y] { 1 } else { 0 };
        stepped(with_reg(with_reg(s, x, ((s.v[x] - s.v[y] + 256) % 256) as u8), 15, no_borrow))
    } else if k == 6 {
        let lost: u8 = s.v[x] & 1;
        stepped(with_reg(with_reg(s, x, s.v[x] >> 1), 15, lost))
    } else if k == 7 {
        let no_borrow: u8 = if s.v[y] >= s.v[x] { 1 } else { 0 };
        stepped(with_reg(with_reg(s, x, ((s.v[y] - s.v[x] + 256) % 256) as u8), 15, no_borrow))
    } else if k == 0xE {
        let lost: u8 = s.v[x] >> 7;
        stepped(with_reg(with_reg(s, x, ((s.v[x] * 2) % 256) as u8), 15, lost))
    } else {
        failed(s, Chip8Error::UnknownOpcode(op))
    }
}

/// The pseudorandom generator: one xorshift round of the 64-bit state.
pub open spec fn next_rng(r: u64) -> u64 {
    let a = r ^ (r << 13);
    let b = a ^ (a >> 7);
    b ^ (b << 17)
}

/// The byte a generator state yields.
pub open spec fn rng_byte(r: u64) -> u8 {
    (r & 0xFF) as u8
}

/// CXNN: the generator advanced once and register `x` set to the drawn
/// byte masked with `nn`.
pub open spec fn rand_spec(s: AbsState, x: int, nn: u8) -> AbsState {
    let r2 = next_rng(s.rng);
    AbsState { rng: r2, v: s.v.update(x, rng_byte(r2) & nn), ..s }
}

/// A column coordinate wrapped back onto the 64-wide display; exact for
/// `0 <= a < 128`.
pub open spec fn wrap_w(a: int) -> int {
    if a < 64 {
        a
    } else {
        a - 64
    }
}

/// A row coordinate wrapped back onto the 32-high display; exact for
/// `0 <= a < 64`.
pub open spec fn wrap_h(a: int) -> int {
    if a < 32 {
        a
    } else {
        a - 32
    }
}

/// Whether bit `b` of a sprite row is lit, bits counted from the most
/// significant; meaningful for `0 <= b < 8`.
pub open spec fn sprite_bit(byte: u8, b: int) -> bool {
    (byte >> ((7 - b) as u8)) & 1 == 1
}

/// The framebuffer index a sprite bit lands on: row `py0 + r` and
/// column `px0 + b`, each axis wrapping independently.
pub open spec fn target_idx(px0: int, py0: int, r: int, b: int) -> int {
    wrap_h(py0 + r) * 64 + wrap_w(px0 + b)
}

/// Whether sprite row/bit pair (r, b) comes before (r0, b0) in drawing
/// order: rows outermost, bits within a row from the most significant.
pub open spec fn pair_before(r0: int, b0: int, r: int, b: int) -> bool {
    r < r0 || (r == r0 && b < b0)
}

/// Whether some lit sprite bit drawn before position (r0, b0) lands on
/// framebuffer cell `idx`. The sprite has `n` rows read from memory at
/// the index register of `s`, drawn at origin (px0, py0).
pub open spec fn sprite_hit_upto(
    s: AbsState,
    px0: int,
    py0: int,
    n: int,
    r0: int,
    b0: int,
    idx: int,
) -> bool {
    exists|r: int, b: int|
        #![trigger target_idx(px0, py0, r, b)]
        0 <= r < n && 0 <= b < 8 && pair_before(r0, b0, r, b) && target_idx(px0, py0, r, b) == idx
            && sprite_bit(s.mem[s.i + r], b)
}

/// Whether any lit bit of the whole sprite lands on cell `idx`.
pub open spec fn sprite_hit(s: AbsState, px0: int, py0: int, n: int, idx: int) -> bool {
    sprite_hit_upto(s, px0, py0, n, n, 0, idx)
}

/// A framebuffer cell toggled.
pub open spec fn flip(c: u8) -> u8 {
    if c == 1 {
        0
    } else {
        1
    }
}

/// The framebuffer after a draw: every cell a lit sprite bit lands on
/// is toggled, every other cell keeps its value.
pub open spec fn draw_disp(s: AbsState, px0: int, py0: int, n: int) -> Seq<u8> {
    Seq::new(
        2048,
        |idx: int|
            if sprite_hit(s, px0, py0, n, idx) {
                flip(s.disp[idx])
            } else {
                s.disp[idx]
            },
    )
}

/// Whether some lit sprite bit drawn before position (r0, b0) lands on
/// a cell that was lit in `s`: the partial collision condition.
pub open spec fn collision_upto(
    s: AbsState,
    px0: int,
    py0: int,
    n: int,
    r0: int,
    b0: int,
) -> bool {
    exists|idx: int|
        0 <= idx < 2048 && #[trigger] sprite_hit_upto(s, px0, py0, n, r0, b0, idx) && s.disp[idx]
            == 1
}

/// Whether the draw toggles off a cell that was lit: the collision
/// condition recorded in `v[0xF]`.
pub open spec fn draw_collision(s: AbsState, px0: int, py0: int, n: int) -> bool {
    collision_upto(s, px0, py0, n, n, 0)
}

/// The machine mid-draw, rows before `r0` done and row `r0` done up to
/// bit `b0`: every cell hit so far is toggled, the collision flag so
/// far sits in `v[0xF]`, and nothing else has moved since `s0`.
pub open spec fn draw_partial(
    s0: AbsState,
    s: AbsState,
    px0: int,
    py0: int,
    n: int,
    r0: int,
    b0: int,
) -> bool {
    &&& s.v == s0.v.update(
        15,
        if collision_upto(s0, px0, py0, n, r0, b0) {
            1u8
        } else {
            0u8
        },
    )
    &&& s.disp.len() == 2048
    &&& (forall|idx: int|
        0 <= idx < 2048 ==> s.disp[idx] == (
        if sprite_hit_upto(s0, px0, py0, n, r0, b0, idx) {
            flip(s0.disp[idx])
        } else {
            s0.disp[idx]
        }))
    &&& s.i == s0.i
    &&& s.pc == s0.pc
    &&& s.stack == s0.stack
    &&& s.delay == s0.delay
    &&& s.sound == s0.sound
    &&& s.mem == s0.mem
    &&& s.keys == s0.keys
    &&& s.draw == s0.draw
    &&& s.rng == s0.rng
}

/// Every sprite bit lands inside the framebuffer.
pub proof fn lemma_target_bounds(px0: int, py0: int, r: int, b: int)
    requires
        0 <= px0 < 64,
        0 <= py0 < 32,
        0 <= r < 16,
        0 <= b < 8,
    ensures
        0 <= target_idx(px0, py0, r, b) < 2048,
{
}

/// Distinct row/bit pairs of one sprite land on distinct cells: the
/// rows are fewer than the display's height and a row's eight bits are
/// narrower than its width, so neither axis wraps onto itself.
pub proof fn lemma_target_inj(px0: int, py0: int, r: int, b: int, r2: int, b2: int)
    requires
        0 <= px0 < 64,
        0 <= py0 < 32,
        0 <= r < 16,
        0 <= b < 8,
        0 <= r2 < 16,
        0 <= b2 < 8,
        target_idx(px0, py0, r, b) == target_idx(px0, py0, r2, b2),
    ensures
        r == r2,
        b == b2,
{
    assert(0 <= wrap_w(px0 + b) < 64);
    assert(0 <= wrap_w(px0 + b2) < 64);
    assert(0 <= wrap_h(py0 + r) < 32);
    assert(0 <= wrap_h(py0 + r2) < 32);
    assert(wrap_h(py0 + r) == wrap_h(py0 + r2));
    assert(wrap_w(px0 + b) == wrap_w(px0 + b2));
}

/// Nothing is hit before the drawing of a sprite begins.
pub proof fn lemma_draw_start(s0: AbsState, px0: int, py0: int, n: int)
    ensures
        forall|idx: int| !sprite_hit_upto(s0, px0, py0, n, 0, 0, idx),
        !collision_upto(s0, px0, py0, n, 0, 0),
{
    assert forall|idx: int| !sprite_hit_upto(s0, px0, py0, n, 0, 0, idx) by {
        if sprite_hit_upto(s0, px0, py0, n, 0, 0, idx) {
            let (r2, b2) = choose|r2: int, b2: int|
                #![trigger target_idx(px0, py0, r2, b2)]
                0 <= r2 < n && 0 <= b2 < 8 && pair_before(0, 0, r2, b2) && target_idx(
                    px0,
                    py0,
                    r2,
                    b2,
                ) == idx && sprite_bit(s0.mem[s0.i + r2], b2);
            assert(false);
        }
    }
}

/// Passing a bit that is unlit moves the drawing frontier without
/// changing which cells are hit or whether a collision was seen.
pub proof fn lemma_frontier_unlit(s0: AbsState, px0: int, py0: int, n: int, r0: int, b0: int)
    requires
        0 <= r0 < n,
        0 <= b0 < 8,
        !sprite_bit(s0.mem[s0.i + r0], b0),
    ensures
        forall|idx: int| #![auto]
            sprite_hit_upto(s0, px0, py0, n, r0, b0 + 1, idx) == sprite_hit_upto(
                s0,
                px0,
                py0,
                n,
                r0,
                b0,
                idx,
            ),
        collision_upto(s0, px0, py0, n, r0, b0 + 1) == collision_upto(s0, px0, py0, n, r0, b0),
{
    assert forall|idx: int| #![auto]
        sprite_hit_upto(s0, px0, py0, n, r0, b0 + 1, idx) == sprite_hit_upto(
            s0,
            px0,
            py0,
            n,
            r0,
            b0,
            idx,
        ) by {
        if sprite_hit_upto(s0, px0, py0, n, r0, b0 + 1, idx) {
            let (r2, b2) = choose|r2: int, b2: int|
                #![trigger target_idx(px0, py0, r2, b2)]
                0 <= r2 < n && 0 <= b2 < 8 && pair_before(r0, b0 + 1, r2, b2) && target_idx(
                    px0,
                    py0,
                    r2,
                    b2,
                ) == idx && sprite_bit(s0.mem[s0.i + r2], b2);
            assert(!(r2 == r0 && b2 == b0));
            assert(pair_before(r0, b0, r2, b2));
            assert(sprite_hit_upto(s0, px0, py0, n, r0, b0, idx));
        }
        if sprite_hit_upto(s0, px0, py0, n, r0, b0, idx) {
            let (r2, b2) = choose|r2: int, b2: int|
                #![trigger target_idx(px0, py0, r2, b2)]
                0 <= r2 < n && 0 <= b2 < 8 && pair_before(r0, b0, r2, b2) && target_idx(
                    px0,
                    py0,
                    r2,
                    b2,
                ) == idx && sprite_bit(s0.mem[s0.i + r2], b2);
            assert(pair_before(r0, b0 + 1, r2, b2));
            assert(sprite_hit_upto(s0, px0, py0, n, r0, b0 + 1, idx));
        }
    }
    if collision_upto(s0, px0, py0, n, r0, b0 + 1) {
        let idx = choose|idx: int|
            0 <= idx < 2048 && #[trigger] sprite_hit_upto(s0, px0, py0, n, r0, b0 + 1, idx)
                && s0.disp[idx] == 1;
        assert(sprite_hit_upto(s0, px0, py0, n, r0, b0, idx));
        assert(collision_upto(s0, px0, py0, n, r0, b0));
    }
    if collision_upto(s0, px0, py0, n, r0, b0) {
        let idx = choose|idx: int|
            0 <= idx < 2048 && #[trigger] sprite_hit_upto(s0, px0, py0, n, r0, b0, idx)
                && s0.disp[idx] == 1;
        assert(sprite_hit_upto(s0, px0, py0, n, r0, b0 + 1, idx));
        assert(collision_upto(s0, px0, py0, n, r0, b0 + 1));
    }
}

/// Passing a lit bit hits exactly one new cell, the one that bit lands
/// on: a cell no earlier pair can have touched. Every other cell keeps
/// its state, and a collision is seen exactly when one was already seen
/// or the new cell was lit.
pub proof fn lemma_frontier_lit(s0: AbsState, px0: int, py0: int, n: int, r0: int, b0: int)
    requires
        0 <= px0 < 64,
        0 <= py0 < 32,
        0 <= r0 < n,
        n < 16,
        0 <= b0 < 8,
        sprite_bit(s0.mem[s0.i + r0], b0),
    ensures
        0 <= target_idx(px0, py0, r0, b0) < 2048,
        !sprite_hit_upto(s0, px0, py0, n, r0, b0, target_idx(px0, py0, r0, b0)),
        sprite_hit_upto(s0, px0, py0, n, r0, b0 + 1, target_idx(px0, py0, r0, b0)),
        forall|idx2: int| #![auto]
            0 <= idx2 < 2048 && idx2 != target_idx(px0, py0, r0, b0) ==> sprite_hit_upto(
                s0,
                px0,
                py0,
                n,
                r0,
                b0 + 1,
                idx2,
            ) == sprite_hit_upto(s0, px0, py0, n, r0, b0, idx2),
        collision_upto(s0, px0, py0, n, r0, b0 + 1) == (collision_upto(s0, px0, py0, n, r0, b0)
            || s0.disp[target_idx(px0, py0, r0, b0)] == 1),
{
    let idx = target_idx(px0, py0, r0, b0);
    lemma_target_bounds(px0, py0, r0, b0);
    if sprite_hit_upto(s0, px0, py0, n, r0, b0, idx) {
        let (r2, b2) = choose|r2: int, b2: int|
            #![trigger target_idx(px0, py0, r2, b2)]
            0 <= r2 < n && 0 <= b2 < 8 && pair_before(r0, b0, r2, b2) && target_idx(
                px0,
                py0,
                r2,
                b2,
            ) == idx && sprite_bit(s0.mem[s0.i + r2], b2);
        lemma_target_inj(px0, py0, r0, b0, r2, b2);
        assert(false);
    }
    assert(sprite_hit_upto(s0, px0, py0, n, r0, b0 + 1, idx)) by {
        assert(0 <= r0 < n && 0 <= b0 < 8 && pair_before(r0, b0 + 1, r0, b0) && target_idx(
            px0,
            py0,
            r0,
            b0,
        ) == idx && sprite_bit(s0.mem[s0.i + r0], b0));
    }
    assert forall|idx2: int| #![auto]
        0 <= idx2 < 2048 && idx2 != idx implies sprite_hit_upto(s0, px0, py0, n, r0, b0 + 1, idx2)
        == sprite_hit_upto(s0, px0, py0, n, r0, b0, idx2) by {
        if sprite_hit_upto(s0, px0, py0, n, r0, b0 + 1, idx2) {
            let (r2, b2) = choose|r2: int, b2: int|
                #![trigger target_idx(px0, py0, r2, b2)]
                0 <= r2 < n && 0 <= b2 < 8 && pair_before(r0, b0 + 1, r2, b2) && target_idx(
                    px0,
                    py0,
                    r2,
                    b2,
                ) == idx2 && sprite_bit(s0.mem[s0.i + r2], b2);
            assert(!(r2 == r0 && b2 == b0));
            assert(pair_before(r0, b0, r2, b2));
            assert(sprite_hit_upto(s0, px0, py0, n, r0, b0, idx2));
        }
        if sprite_hit_upto(s0, px0, py0, n, r0, b0, idx2) {
            let (r2, b2) = choose|r2: int, b2: int|
                #![trigger target_idx(px0, py0, r2, b2)]
                0 <= r2 < n && 0 <= b2 < 8 && pair_before(r0, b0, r2, b2) && target_idx(
                    px0,
                    py0,
                    r2,
                    b2,
                ) == idx2 && sprite_bit(s0.mem[s0.i + r2], b2);
            assert(pair_before(r0, b0 + 1, r2, b2));
            assert(sprite_hit_upto(s0, px0, py0, n, r0, b0 + 1, idx2));
        }
    }
    if collision_upto(s0, px0, py0, n, r0, b0 + 1) {
        let idx2 = choose|idx2: int|
            0 <= idx2 < 2048 && #[trigger] sprite_hit_upto(s0, px0, py0, n, r0, b0 + 1, idx2)
                && s0.disp[idx2] == 1;
        if idx2 != idx {
            assert(sprite_hit_upto(s0, px0, py0, n, r0, b0, idx2));
            assert(collision_upto(s0, px0, py0, n, r0, b0));
        }
    }
    if collision_upto(s0, px0, py0, n, r0, b0) {
        let idx2 = choose|idx2: int|
            0 <= idx2 < 2048 && #[trigger] sprite_hit_upto(s0, px0, py0, n, r0, b0, idx2)
                && s0.disp[idx2] == 1;
        assert(sprite_hit_upto(s0, px0, py0, n, r0, b0 + 1, idx2));
        assert(collision_upto(s0, px0, py0, n, r0, b0 + 1));
    }
    if s0.disp[idx] == 1 {
        assert(collision_upto(s0, px0, py0, n, r0, b0 + 1)) by {
            assert(sprite_hit_upto(s0, px0, py0, n, r0, b0 + 1, idx));
        }
    }
}

/// Which cells a sprite hits depends only on the memory image and the
/// index register, not on the rest of the machine.
pub proof fn lemma_hit_depends_on_sprite(
    s1: AbsState,
    s2: AbsState,
    px0: int,
    py0: int,
    n: int,
    r0: int,
    b0: int,
)
    requires
        s1.mem == s2.mem,
        s1.i == s2.i,
    ensures
        forall|idx: int| #![auto]
            sprite_hit_upto(s1, px0, py0, n, r0, b0, idx) == sprite_hit_upto(
                s2,
                px0,
                py0,
                n,
                r0,
                b0,
                idx,
            ),
{
    assert forall|idx: int| #![auto]
        sprite_hit_upto(s1, px0, py0, n, r0, b0, idx) == sprite_hit_upto(
            s2,
            px0,
            py0,
            n,
            r0,
            b0,
            idx,
        ) by {
        if sprite_hit_upto(s1, px0, py0, n, r0, b0, idx) {
            let (r2, b2) = choose|r2: int, b2: int|
                #![trigger target_idx(px0, py0, r2, b2)]
                0 <= r2 < n && 0 <= b2 < 8 && pair_before(r0, b0, r2, b2) && target_idx(
                    px0,
                    py0,
                    r2,
                    b2,
                ) == idx && sprite_bit(s1.mem[s1.i + r2], b2);
            assert(sprite_bit(s2.mem[s2.i + r2], b2));
            assert(sprite_hit_upto(s2, px0, py0, n, r0, b0, idx));
        }
        if sprite_hit_upto(s2, px0, py0, n, r0, b0, idx) {
            let (r2, b2) = choose|r2: int, b2: int|
                #![trigger target_idx(px0, py0, r2, b2)]
                0 <= r2 < n && 0 <= b2 < 8 && pair_before(r0, b0, r2, b2) && target_idx(
                    px0,
                    py0,
                    r2,
                    b2,
                ) == idx && sprite_bit(s2.mem[s2.i + r2], b2);
            assert(sprite_bit(s1.mem[s1.i + r2], b2));
            assert(sprite_hit_upto(s1, px0, py0, n, r0, b0, idx));
        }
    }
}

/// A row finished at bit 8 is the next row started at bit 0.
pub proof fn lemma_row_end(s0: AbsState, px0: int, py0: int, n: int, r0: int)
    ensures
        forall|idx: int| #![auto]
            sprite_hit_upto(s0, px0, py0, n, r0 + 1, 0, idx) == sprite_hit_upto(
                s0,
                px0,
                py0,
                n,
                r0,
                8,
                idx,
            ),
        collision_upto(s0, px0, py0, n, r0 + 1, 0) == collision_upto(s0, px0, py0, n, r0, 8),
{
    assert forall|idx: int| #![auto]
        sprite_hit_upto(s0, px0, py0, n, r0 + 1, 0, idx) == sprite_hit_upto(
            s0,
            px0,
            py0,
            n,
            r0,
            8,
            idx,
        ) by {
        if sprite_hit_upto(s0, px0, py0, n, r0 + 1, 0, idx) {
            let (r2, b2) = choose|r2: int, b2: int|
                #![trigger target_idx(px0, py0, r2, b2)]
                0 <= r2 < n && 0 <= b2 < 8 && pair_before(r0 + 1, 0, r2, b2) && target_idx(
                    px0,
                    py0,
                    r2,
                    b2,
                ) == idx && sprite_bit(s0.mem[s0.i + r2], b2);
            assert(pair_before(r0, 8, r2, b2));
            assert(sprite_hit_upto(s0, px0, py0, n, r0, 8, idx));
        }
        if sprite_hit_upto(s0, px0, py0, n, r0, 8, idx) {
            let (r2, b2) = choose|r2: int, b2: int|
                #![trigger target_idx(px0, py0, r2, b2)]
                0 <= r2 < n && 0 <= b2 < 8 && pair_before(r0, 8, r2, b2) && target_idx(
                    px0,
                    py0,
                    r2,
                    b2,
                ) == idx && sprite_bit(s0.mem[s0.i + r2], b2);
            assert(pair_before(r0 + 1, 0, r2, b2));
            assert(sprite_hit_upto(s0, px0, py0, n, r0 + 1, 0, idx));
        }
    }
    if collision_upto(s0, px0, py0, n, r0 + 1, 0) {
        let idx = choose|idx: int|
            0 <= idx < 2048 && #[trigger] sprite_hit_upto(s0, px0, py0, n, r0 + 1, 0, idx)
                && s0.disp[idx] == 1;
        assert(sprite_hit_upto(s0, px0, py0, n, r0, 8, idx));
        assert(collision_upto(s0, px0, py0, n, r0, 8));
    }
    if collision_upto(s0, px0, py0, n, r0, 8) {
        let idx = choose|idx: int|
            0 <= idx < 2048 && #[trigger] sprite_hit_upto(s0, px0, py0, n, r0, 8, idx)
                && s0.disp[idx] == 1;
        assert(sprite_hit_upto(s0, px0, py0, n, r0 + 1, 0, idx));
        assert(collision_upto(s0, px0, py0, n, r0 + 1, 0));
    }
}

/// DXYN: the sprite of `n` rows at the index register drawn at the
/// coordinates in registers `x` and `y`, with the collision flag in
/// `v[0xF]` and a redraw requested; fails without any effect when the
/// sprite's rows reach past the end of memory.
pub open spec fn draw_spec(s: AbsState, x: int, y: int, n: int) -> StepOutcome {
    if s.i + n > 4096 {
        failed(s, Chip8Error::MemoryOutOfBounds)
    } else {
        let px0 = s.v[x] as int % 64;
        let py0 = s.v[y] as int % 32;
        let hit: u8 = if draw_collision(s, px0, py0, n) {
            1
        } else {
            0
        };
        stepped(
            AbsState {
                disp: draw_disp(s, px0, py0, n),
                v: s.v.update(15, hit),
                draw: true,
                ..s
            },
        )
    }
}

/// EX9E / EXA1: skip the next instruction if the key named by the low
/// nibble of register `x` is (respectively is not) pressed.
pub open spec fn key_spec(s: AbsState, op: u16) -> StepOutcome {
    let key = (s.v[op_x(op)] & 0xF) as int;
    if op_nn(op) == 0x9E {
        stepped(skip_if(s, s.keys[key]))
    } else if op_nn(op) == 0xA1 {
        stepped(skip_if(s, !s.keys[key]))
    } else {
        failed(s, Chip8Error::UnknownOpcode(op))
    }
}

/// The lowest-numbered key currently pressed, scanning from `k` up.
pub open spec fn first_pressed_from(keys: Seq<bool>, k: int) -> Option<u8>
    decreases 16 - k,
{
    if k < 0 || k >= 16 {
        None
    } else if keys[k] {
        Some(k as u8)
    } else {
        first_pressed_from(keys, k + 1)
    }
}

/// FX0A: when a key is pressed its index lands in register `x`;
/// otherwise the program counter moves back onto this instruction and
/// the step reports that it awaits input.
pub open spec fn wait_key_spec(s: AbsState, x: int) -> StepOutcome {
    match first_pressed_from(s.keys, 0) {
        Some(k) => stepped(with_reg(s, x, k)),
        None => StepOutcome {
            post: with_pc(s, pc_minus_2(s.pc)),
            result: Ok(StepStatus::AwaitingKey),
        },
    }
}

/// FX33: the decimal digits of register `x` written at the index
/// register, hundreds first; fails without any effect when the three
/// bytes reach past the end of memory.
pub open spec fn bcd_spec(s: AbsState, x: int) -> StepOutcome {
    if s.i + 2 >= 4096 {
        failed(s, Chip8Error::MemoryOutOfBounds)
    } else {
        let val = s.v[x];
        stepped(
            AbsState {
                mem: s.mem.update(s.i as int, val / 100).update(
                    s.i as int + 1,
                    (val / 10) % 10,
                ).update(s.i as int + 2, val % 10),
                ..s
            },
        )
    }
}

/// The memory after FX55: registers 0 through `x` stored at the index
/// register, everything else untouched.
pub open spec fn stored_mem(s: AbsState, x: int) -> Seq<u8> {
    Seq::new(
        4096,
        |a: int|
            if s.i <= a <= s.i + x {
                s.v[a - s.i]
            } else {
                s.mem[a]
            },
    )
}

/// FX55: registers 0 through `x` stored to memory at the index
/// register, which itself stays put; fails without any effect when the
/// block reaches past the end of memory.
pub open spec fn store_spec(s: AbsState, x: int) -> StepOutcome {
    if s.i + x >= 4096 {
        failed(s, Chip8Error::MemoryOutOfBounds)
    } else {
        stepped(AbsState { mem: stored_mem(s, x), ..s })
    }
}

/// The registers after FX65: 0 through `x` reloaded from memory at the
/// index register, the rest untouched.
pub open spec fn loaded_regs(s: AbsState, x: int) -> Seq<u8> {
    Seq::new(
        16,
        |k: int|
            if k <= x {
                s.mem[s.i + k]
            } else {
                s.v[k]
            },
    )
}

/// FX65: registers 0 through `x` loaded from memory at the index
/// register; fails without any effect when the block reaches past the
/// end of memory.
pub open spec fn load_spec(s: AbsState, x: int) -> StepOutcome {
    if s.i + x >= 4096 {
        failed(s, Chip8Error::MemoryOutOfBounds)
    } else {
        stepped(AbsState { v: loaded_regs(s, x), ..s })
    }
}

/// The FXNN family: timers, key wait, index arithmetic, glyph lookup,
/// decimal digits, and the register-block store and load.
pub open spec fn fx_spec(s: AbsState, op: u16) -> StepOutcome {
    let x = op_x(op);
    let nn = op_nn(op);
    if nn == 0x07 {
        stepped(with_reg(s, x, s.delay))
    } else if nn == 0x0A {
        wait_key_spec(s, x)
    } else if nn == 0x15 {
        stepped(AbsState { delay: s.v[x], ..s })
    } else if nn == 0x18 {
        stepped(AbsState { sound: s.v[x], ..s })
    } else if nn == 0x1E {
        stepped(AbsState { i: ((s.i + s.v[x]) % 0x1000) as u16, ..s })
    } else if nn == 0x29 {
        stepped(AbsState { i: (0x50 + 5 * (s.v[x] & 0xF)) as u16, ..s })
    } else if nn == 0x33 {
        bcd_spec(s, x)
    } else if nn == 0x55 {
        store_spec(s, x)
    } else if nn == 0x65 {
        load_spec(s, x)
    } else {
        failed(s, Chip8Error::UnknownOpcode(op))
    }
}

/// Decode and execute one already-fetched opcode against state `s`,
/// whose program counter already sits past the instruction.
pub open spec fn exec_op_spec(s: AbsState, op: u16) -> StepOutcome {
    let fam = op >> 12;
    if fam == 0 {
        if op == 0x00E0 {
            stepped(clear_spec(s))
        } else if op == 0x00EE {
            ret_spec(s)
        } else {
            failed(s, Chip8Error::UnknownOpcode(op))
        }
    } else if fam == 1 {
        stepped(with_pc(s, op_nnn(op)))
    } else if fam == 2 {
        call_spec(s, op_nnn(op))
    } else if fam == 3 {
        stepped(skip_if(s, s.v[op_x(op)] == op_nn(op)))
    } else if fam == 4 {
        stepped(skip_if(s, s.v[op_x(op)] != op_nn(op)))
    } else if fam == 5 {
        if op_n(op) == 0 {
            stepped(skip_if(s, s.v[op_x(op)] == s.v[op_y(op)]))
        } else {
            failed(s, Chip8Error::UnknownOpcode(op))
        }
    } else if fam == 6 {
        stepped(with_reg(s, op_x(op), op_nn(op)))
    } else if fam == 7 {
        stepped(add_imm_spec(s, op_x(op), op_nn(op)))
    } else if fam == 8 {
        alu_spec(s, op)
    } else if fam == 9 {
        if op_n(op) == 0 {
            stepped(skip_if(s, s.v[op_x(op)] != s.v[op_y(op)]))
        } else {
            failed(s, Chip8Error::UnknownOpcode(op))
        }
    } else if fam == 0xA {
        stepped(AbsState { i: op_nnn(op), ..s })
    } else if fam == 0xB {
        stepped(with_pc(s, (op_nnn(op) + s.v[0]) as u16))
    } else if fam == 0xC {
        stepped(rand_spec(s, op_x(op), op_nn(op)))
    } else if fam == 0xD {
        draw_spec(s, op_x(op), op_y(op), op_n(op))
    } else if fam == 0xE {
        key_spec(s, op)
    } else {
        fx_spec(s, op)
    }
}

/// The big-endian 16-bit opcode at the program counter of `s`.
pub open spec fn fetched(s: AbsState) -> u16 {
    ((s.mem[s.pc as int] as u16) << 8) | (s.mem[s.pc as int + 1] as u16)
}

/// One whole fetch-decode-execute step. A fetch that would read past
/// memory fails with nothing changed; otherwise the program counter
/// moves past the instruction before the opcode takes effect, so jumps
/// and skips overwrite it rather than suppress the advance.
pub open spec fn step_spec(s: AbsState) -> StepOutcome {
    if s.pc as int + 1 >= 4096 {
        failed(s, Chip8Error::MemoryOutOfBounds)
    } else {
        exec_op_spec(with_pc(s, (s.pc + 2) as u16), fetched(s))
    }
}

/// One timer tick: each timer moves one step toward zero and stops
/// there, never wrapping.
pub open spec fn tick_spec(s: AbsState) -> AbsState {
    AbsState {
        delay: if s.delay > 0 {
            (s.delay - 1) as u8
        } else {
            0
        },
        sound: if s.sound > 0 {
            (s.sound - 1) as u8
        } else {
            0
        },
        ..s
    }
}

/// The memory after a program image `rom` is loaded at 0x200.
pub open spec fn loaded_mem(mem: Seq<u8>, rom: Seq<u8>) -> Seq<u8> {
    Seq::new(
        4096,
        |a: int|
            if 0x200 <= a < 0x200 + rom.len() {
                rom[a - 0x200]
            } else {
                mem[a]
            },
    )
}

} // verus!
