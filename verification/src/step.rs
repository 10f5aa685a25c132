use vstd::prelude::*;
use crate::decode::{spec_decode, Instr};
use crate::draw::{blit_collision, blit_screen};
use crate::model::{Chip8Error, MachineView, MEMORY_SIZE, NUM_KEYS, NUM_REGISTERS, STACK_LIMIT};

verus! {

/// One countdown of a timer channel: down by one while positive, parked at zero.
pub open spec fn timer_next(t: u8) -> u8 {
    if t > 0 {
        (t - 1) as u8
    } else {
        0u8
    }
}

/// Byte addition with wraparound modulo 256.
pub open spec fn wrap_add(a: u8, b: u8) -> u8 {
    if a + b > 255 {
        (a + b - 256) as u8
    } else {
        (a + b) as u8
    }
}

/// The carry flag of a byte addition: 1 exactly when the unsigned sum overflows.
pub open spec fn carry(a: u8, b: u8) -> u8 {
    if a + b > 255 {
        1u8
    } else {
        0u8
    }
}

/// Byte subtraction `a - b` with wraparound modulo 256.
pub open spec fn wrap_sub(a: u8, b: u8) -> u8 {
    if a >= b {
        (a - b) as u8
    } else {
        (a - b + 256) as u8
    }
}

/// The flag of a byte subtraction `a - b`: 1 exactly when no borrow
/// occurred, that is when the minuend is at least the subtrahend.
pub open spec fn no_borrow(a: u8, b: u8) -> u8 {
    if a >= b {
        1u8
    } else {
        0u8
    }
}

/// Word addition with wraparound modulo 65536.
pub open spec fn wrap_add16(a: u16, b: u16) -> u16 {
    if a + b > 65535 {
        (a + b - 65536) as u16
    } else {
        (a + b) as u16
    }
}

/// The program counter moved forward over one instruction.
pub open spec fn pc_skip(pc: u16) -> u16 {
    wrap_add16(pc, 2)
}

/// The hundreds digit of a byte value.
pub open spec fn bcd_hundreds(v: u8) -> u8 {
    (v / 100) as u8
}

/// The tens digit of a byte value.
pub open spec fn bcd_tens(v: u8) -> u8 {
    ((v / 10) % 10) as u8
}

/// The units digit of a byte value.
pub open spec fn bcd_units(v: u8) -> u8 {
    (v % 10) as u8
}

/// The lowest pressed key index at or above `k`, or 16 when none is.
pub open spec fn lowest_pressed_from(keys: Seq<bool>, k: int) -> int
    decreases NUM_KEYS - k,
{
    if k < 0 || k >= NUM_KEYS {
        16
    } else if keys[k] {
        k
    } else {
        lowest_pressed_from(keys, k + 1)
    }
}

/// Whether the key named by register value `key` is pressed; a value
/// beyond the pad names no key and counts as not pressed.
pub open spec fn key_pressed(keys: Seq<bool>, key: u8) -> bool {
    key < NUM_KEYS && keys[key as int]
}

/// Memory after registers `V0..Vx` are stored at base address `i`.
pub open spec fn store_registers(mem: Seq<u8>, v: Seq<u8>, i: u16, x: u8) -> Seq<u8> {
    Seq::new(mem.len(), |j: int| if i <= j <= i + x { v[j - i] } else { mem[j] })
}

/// Registers after `V0..Vx` are loaded from memory at base address `i`.
pub open spec fn load_registers(v: Seq<u8>, mem: Seq<u8>, i: u16, x: u8) -> Seq<u8> {
    Seq::new(v.len(), |j: int| if j <= x { mem[i + j] } else { v[j] })
}

/// The effect of one decoded instruction on the machine, as a total
/// function of the state, the instruction and the byte `rnd` that the
/// random source supplied (read only by `Random`).  A fault leaves the
/// machine exactly as it was.
pub open spec fn step(pre: MachineView, instr: Instr, rnd: u8) -> Result<MachineView, Chip8Error> {
    match instr {
        Instr::Nop => Ok(pre),
        Instr::ClearScreen => Ok(
            MachineView { screen: Seq::new(pre.screen.len(), |p: int| 0u8), ..pre },
        ),
        Instr::Return => {
            if pre.stack.len() == 0 {
                Err(Chip8Error::CallStackUnderflow)
            } else {
                Ok(MachineView { pc: pre.stack.last(), stack: pre.stack.drop_last(), ..pre })
            }
        },
        Instr::Jump(nnn) => Ok(MachineView { pc: nnn, ..pre }),
        Instr::Call(nnn) => {
            if pre.stack.len() >= STACK_LIMIT {
                Err(Chip8Error::CallStackOverflow)
            } else {
                Ok(MachineView { pc: nnn, stack: pre.stack.push(pre.pc), ..pre })
            }
        },
        Instr::SkipEqImm(x, nn) => Ok(
            if pre.v[x as int] == nn {
                MachineView { pc: pc_skip(pre.pc), ..pre }
            } else {
                pre
            },
        ),
        Instr::SkipNeImm(x, nn) => Ok(
            if pre.v[x as int] != nn {
                MachineView { pc: pc_skip(pre.pc), ..pre }
            } else {
                pre
            },
        ),
        Instr::SkipEqReg(x, y) => Ok(
            if pre.v[x as int] == pre.v[y as int] {
                MachineView { pc: pc_skip(pre.pc), ..pre }
            } else {
                pre
            },
        ),
        Instr::SkipNeReg(x, y) => Ok(
            if pre.v[x as int] != pre.v[y as int] {
                MachineView { pc: pc_skip(pre.pc), ..pre }
            } else {
                pre
            },
        ),
        Instr::LoadImm(x, nn) => Ok(MachineView { v: pre.v.update(x as int, nn), ..pre }),
        Instr::AddImm(x, nn) => Ok(
            MachineView { v: pre.v.update(x as int, wrap_add(pre.v[x as int], nn)), ..pre },
        ),
        Instr::CopyReg(x, y) => Ok(
            MachineView { v: pre.v.update(x as int, pre.v[y as int]), ..pre },
        ),
        Instr::OrReg(x, y) => Ok(
            MachineView { v: pre.v.update(x as int, pre.v[x as int] | pre.v[y as int]), ..pre },
        ),
        Instr::AndReg(x, y) => Ok(
            MachineView { v: pre.v.update(x as int, pre.v[x as int] & pre.v[y as int]), ..pre },
        ),
        Instr::XorReg(x, y) => Ok(
            MachineView { v: pre.v.update(x as int, pre.v[x as int] ^ pre.v[y as int]), ..pre },
        ),
        Instr::AddReg(x, y) => Ok(
            MachineView {
                v: pre.v.update(x as int, wrap_add(pre.v[x as int], pre.v[y as int])).update(
                    15,
                    carry(pre.v[x as int], pre.v[y as int]),
                ),
                ..pre
            },
        ),
        Instr::SubReg(x, y) => Ok(
            MachineView {
                v: pre.v.update(x as int, wrap_sub(pre.v[x as int], pre.v[y as int])).update(
                    15,
                    no_borrow(pre.v[x as int], pre.v[y as int]),
                ),
                ..pre
            },
        ),
        Instr::SubFromReg(x, y) => Ok(
            MachineView {
                v: pre.v.update(x as int, wrap_sub(pre.v[y as int], pre.v[x as int])).update(
                    15,
                    no_borrow(pre.v[y as int], pre.v[x as int]),
                ),
                ..pre
            },
        ),
        Instr::ShiftRight(x) => Ok(
            MachineView {
                v: pre.v.update(x as int, (pre.v[x as int] / 2) as u8).update(
                    15,
                    (pre.v[x as int] % 2) as u8,
                ),
                ..pre
            },
        ),
        Instr::ShiftLeft(x) => Ok(
            MachineView {
                v: pre.v.update(x as int, wrap_add(pre.v[x as int], pre.v[x as int])).update(
                    15,
                    (pre.v[x as int] / 128) as u8,
                ),
                ..pre
            },
        ),
        Instr::SetIndex(nnn) => Ok(MachineView { index: nnn, ..pre }),
        Instr::JumpPlusV0(nnn) => Ok(MachineView { pc: (pre.v[0] + nnn) as u16, ..pre }),
        Instr::Random(x, nn) => Ok(MachineView { v: pre.v.update(x as int, rnd & nn), ..pre }),
        Instr::Draw(x, y, n) => {
            if pre.index + n > MEMORY_SIZE {
                Err(Chip8Error::MemoryOutOfBounds)
            } else {
                let vx = pre.v[x as int];
                let vy = pre.v[y as int];
                Ok(
                    MachineView {
                        screen: blit_screen(pre.screen, pre.memory, pre.index, vx, vy, n),
                        v: pre.v.update(
                            15,
                            if blit_collision(pre.screen, pre.memory, pre.index, vx, vy, n) {
                                1u8
                            } else {
                                0u8
                            },
                        ),
                        ..pre
                    },
                )
            }
        },
        Instr::SkipIfKey(x) => Ok(
            if key_pressed(pre.keys, pre.v[x as int]) {
                MachineView { pc: pc_skip(pre.pc), ..pre }
            } else {
                pre
            },
        ),
        Instr::SkipIfNoKey(x) => Ok(
            if !key_pressed(pre.keys, pre.v[x as int]) {
                MachineView { pc: pc_skip(pre.pc), ..pre }
            } else {
                pre
            },
        ),
        Instr::ReadDelay(x) => Ok(MachineView { v: pre.v.update(x as int, pre.delay), ..pre }),
        Instr::WaitKey(x) => {
            let k = lowest_pressed_from(pre.keys, 0);
            if k < NUM_KEYS {
                Ok(MachineView { v: pre.v.update(x as int, k as u8), ..pre })
            } else if pre.pc >= 2 {
                Ok(MachineView { pc: (pre.pc - 2) as u16, ..pre })
            } else {
                Err(Chip8Error::ProgramCounterOutOfBounds)
            }
        },
        Instr::SetDelay(x) => Ok(MachineView { delay: pre.v[x as int], ..pre }),
        Instr::SetSound(x) => Ok(MachineView { sound: pre.v[x as int], ..pre }),
        Instr::AddToIndex(x) => Ok(
            MachineView { index: wrap_add16(pre.index, pre.v[x as int] as u16), ..pre },
        ),
        Instr::GlyphAddress(x) => Ok(MachineView { index: (pre.v[x as int] * 5) as u16, ..pre }),
        Instr::StoreBcd(x) => {
            if pre.index + 3 > MEMORY_SIZE {
                Err(Chip8Error::MemoryOutOfBounds)
            } else {
                let vx = pre.v[x as int];
                Ok(
                    MachineView {
                        memory: pre.memory.update(pre.index as int, bcd_hundreds(vx)).update(
                            pre.index + 1,
                            bcd_tens(vx),
                        ).update(pre.index + 2, bcd_units(vx)),
                        ..pre
                    },
                )
            }
        },
        Instr::StoreRegisters(x) => {
            if pre.index + x + 1 > MEMORY_SIZE {
                Err(Chip8Error::MemoryOutOfBounds)
            } else {
                Ok(MachineView { memory: store_registers(pre.memory, pre.v, pre.index, x), ..pre })
            }
        },
        Instr::LoadRegisters(x) => {
            if pre.index + x + 1 > MEMORY_SIZE {
                Err(Chip8Error::MemoryOutOfBounds)
            } else {
                Ok(MachineView { v: load_registers(pre.v, pre.memory, pre.index, x), ..pre })
            }
        },
        Instr::Unknown(_) => Ok(pre),
    }
}

/// Relates the machine before and after one instruction is executed with
/// the random source supplying `rnd`: success leaves the stepped state, a
/// fault leaves the state untouched and reports the fault.
pub open spec fn instr_outcome(
    pre: MachineView,
    instr: Instr,
    rnd: u8,
    post: MachineView,
    r: Result<(), Chip8Error>,
) -> bool {
    match step(pre, instr, rnd) {
        Ok(m) => r == Ok::<(), Chip8Error>(()) && post == m,
        Err(e) => r == Err::<(), Chip8Error>(e) && post == pre,
    }
}

/// `instr_outcome` for the instruction an opcode word decodes to.
pub open spec fn step_outcome(
    pre: MachineView,
    op: u16,
    rnd: u8,
    post: MachineView,
    r: Result<(), Chip8Error>,
) -> bool {
    instr_outcome(pre, spec_decode(op), rnd, post, r)
}

/// Scanning the pad upward does not change which key is found once the
/// keys already passed are known to be up.
pub proof fn lemma_lowest_pressed_prefix(keys: Seq<bool>, k: int)
    requires
        0 <= k <= NUM_KEYS,
        keys.len() == NUM_KEYS,
        forall|j: int| 0 <= j < k ==> !keys[j],
    ensures
        lowest_pressed_from(keys, 0) == lowest_pressed_from(keys, k),
    decreases k,
{
    if k > 0 {
        lemma_lowest_pressed_prefix(keys, k - 1);
    }
}

/// The opcode word fetched at the program counter: two consecutive
/// memory bytes combined big-endian.
pub open spec fn fetch_word(m: MachineView) -> u16 {
    (m.memory[m.pc as int] * 256 + m.memory[m.pc as int + 1]) as u16
}

/// One whole cycle: fetch (which advances the program counter by 2),
/// decode, execute.  The pair holds the machine after the cycle and its
/// result.  A fetch past the end of memory changes nothing; a fault in
/// the instruction itself leaves the advanced program counter behind.
pub open spec fn spec_tick(pre: MachineView, rnd: u8) -> (MachineView, Result<(), Chip8Error>) {
    if pre.pc as int + 1 >= MEMORY_SIZE {
        (pre, Err(Chip8Error::ProgramCounterOutOfBounds))
    } else {
        let op = fetch_word(pre);
        let mid = MachineView { pc: (pre.pc + 2) as u16, ..pre };
        match step(mid, spec_decode(op), rnd) {
            Ok(m) => (m, Ok(())),
            Err(e) => (mid, Err(e)),
        }
    }
}

} // verus!
