use vstd::prelude::*;
use vstd::arithmetic::div_mod::lemma_fundamental_div_mod_converse;
use crate::decode::{spec_decode, Instr};
use crate::draw::{blit_screen, cell_index, lemma_blit_round_trip, sprite_bit};
use crate::model::{Chip8Error, MachineView, MEMORY_SIZE, SCREEN_SIZE, STACK_LIMIT};
use crate::step::{step, timer_next};

verus! {

/// Clearing the screen yields an all-zero framebuffer, whatever was
/// drawn before; nothing else moves.
pub proof fn lemma_clear_screen_clears(pre: MachineView, rnd: u8)
    requires
        pre.wf(),
    ensures
        spec_decode(0x00E0) == Instr::ClearScreen,
        step(pre, Instr::ClearScreen, rnd) matches Ok(m) && (forall|p: int|
            0 <= p < SCREEN_SIZE ==> #[trigger] m.screen[p] == 0) && m.v == pre.v && m.pc == pre.pc
            && m.memory == pre.memory,
{
}

/// A call pushes the address of the instruction after it and a following
/// return restores the machine exactly, at every stack depth below the
/// limit; at the limit the call fails with overflow and changes nothing.
pub proof fn lemma_call_return_round_trip(pre: MachineView, nnn: u16, rnd1: u8, rnd2: u8)
    requires
        pre.wf(),
        nnn < 4096,
    ensures
        spec_decode((0x2000 + nnn) as u16) == Instr::Call(nnn),
        spec_decode(0x00EE) == Instr::Return,
        pre.stack.len() < STACK_LIMIT ==> (step(pre, Instr::Call(nnn), rnd1) matches Ok(called)
            && called.pc == nnn && called.stack == pre.stack.push(pre.pc) && (step(
            called,
            Instr::Return,
            rnd2,
        ) matches Ok(returned) && returned == pre)),
        pre.stack.len() >= STACK_LIMIT ==> step(pre, Instr::Call(nnn), rnd1) == Err::<
            MachineView,
            Chip8Error,
        >(Chip8Error::CallStackOverflow),
{
    let op = (0x2000 + nnn) as u16;
    assert(op / 0x1000 == 2 && op % 0x1000 == nnn) by {
        lemma_fundamental_div_mod_converse(op as int, 0x1000, 2, nnn as int);
    }
    if pre.stack.len() < STACK_LIMIT {
        let called = step(pre, Instr::Call(nnn), rnd1)->Ok_0;
        let returned = step(called, Instr::Return, rnd2)->Ok_0;
        assert(called.stack.len() == pre.stack.len() + 1);
        assert(returned.stack =~= pre.stack);
        assert(returned =~= pre);
    }
}

/// Adding an immediate to a register other than the flag register leaves
/// `VF` untouched, even when the sum wraps around.
pub proof fn lemma_add_imm_flag_untouched(pre: MachineView, x: u8, nn: u8, rnd: u8)
    requires
        pre.wf(),
        x < 15,
    ensures
        step(pre, Instr::AddImm(x, nn), rnd) matches Ok(m) && m.v[15] == pre.v[15],
{
}

/// Register addition reports carry in `VF`: 1 exactly when the unsigned
/// sum exceeds 255 before wraparound, 0 otherwise.
pub proof fn lemma_add_reg_carry(pre: MachineView, x: u8, y: u8, rnd: u8)
    requires
        pre.wf(),
        x < 16,
        y < 16,
    ensures
        step(pre, Instr::AddReg(x, y), rnd) matches Ok(m) && (m.v[15] == 1 <==> pre.v[x as int]
            + pre.v[y as int] > 255) && (m.v[15] == 0 <==> pre.v[x as int] + pre.v[y as int]
            <= 255),
{
}

/// Both subtractions report in `VF` exactly whether no borrow occurred:
/// 1 when the minuend is at least the subtrahend, 0 otherwise, for every
/// pair of register values.
pub proof fn lemma_sub_borrow_flags(pre: MachineView, x: u8, y: u8, rnd1: u8, rnd2: u8)
    requires
        pre.wf(),
        x < 16,
        y < 16,
    ensures
        step(pre, Instr::SubReg(x, y), rnd1) matches Ok(m) && (m.v[15] == 1 <==> pre.v[x as int]
            >= pre.v[y as int]) && (m.v[15] == 0 <==> pre.v[x as int] < pre.v[y as int]),
        step(pre, Instr::SubFromReg(x, y), rnd2) matches Ok(m) && (m.v[15] == 1 <==> pre.v[y as int]
            >= pre.v[x as int]) && (m.v[15] == 0 <==> pre.v[y as int] < pre.v[x as int]),
{
}

/// Drawing the same sprite twice at the same coordinates restores the
/// framebuffer exactly; the second draw reports a collision precisely
/// when some sprite bit is 1 over a pixel that was clear at the start
/// (the first draw turned every such pixel on).  The flag register is
/// excluded from the coordinate registers, since the first draw writes
/// it and would otherwise move the second sprite.
pub proof fn lemma_draw_round_trip(pre: MachineView, x: u8, y: u8, n: u8, rnd1: u8, rnd2: u8)
    requires
        pre.wf(),
        x < 15,
        y < 15,
        n < 16,
        pre.index + n <= MEMORY_SIZE,
    ensures
        step(pre, Instr::Draw(x, y, n), rnd1) matches Ok(m1) && (step(
            m1,
            Instr::Draw(x, y, n),
            rnd2,
        ) matches Ok(m2) && m2.screen == pre.screen && (m2.v[15] == 1 <==> exists|r: int, c: int|
            0 <= r < n && 0 <= c < 8 && #[trigger] sprite_bit(pre.memory[pre.index + r], c) == 1
                && pre.screen[#[trigger] cell_index(pre.v[x as int], pre.v[y as int], r, c)] == 0)),
{
    let vx = pre.v[x as int];
    let vy = pre.v[y as int];
    let mem = pre.memory;
    let i = pre.index;
    let m1 = step(pre, Instr::Draw(x, y, n), rnd1)->Ok_0;
    assert(m1.memory == mem && m1.index == i && m1.v[x as int] == vx && m1.v[y as int] == vy);
    assert(m1.screen == blit_screen(pre.screen, mem, i, vx, vy, n));
    let m2 = step(m1, Instr::Draw(x, y, n), rnd2)->Ok_0;
    lemma_blit_round_trip(pre.screen, mem, i, vx, vy, n);
    assert(m2.screen == pre.screen);
}

/// The value a timer holds after being advanced `k` times.
pub open spec fn timer_after(t: u8, k: nat) -> u8
    decreases k,
{
    if k == 0 {
        t
    } else {
        timer_next(timer_after(t, (k - 1) as nat))
    }
}

/// Timer monotonicity: advancing a timer `k` times from value `t` leaves
/// `max(t - k, 0)`; the countdown never wraps below zero, and once at
/// zero it stays there.
pub proof fn lemma_timer_monotone(t: u8, k: nat)
    ensures
        timer_after(t, k) == if k <= t {
            (t - k) as u8
        } else {
            0u8
        },
    decreases k,
{
    if k > 0 {
        lemma_timer_monotone(t, (k - 1) as nat);
    }
}

} // verus!
