use vstd::prelude::*;

verus! {

/// One decoded instruction: the opcode kind together with its operands.
/// Register operands `x` and `y` and the small immediate `n` are nibbles
/// (below 16), `nn` is the low opcode byte, and `nnn` the low 12 bits.
#[derive(Clone, Copy, PartialEq, Eq, Debug, Structural)]
pub enum Instr {
    /// `0000`: do nothing.
    Nop,
    /// `00E0`: clear the framebuffer.
    ClearScreen,
    /// `00EE`: pop a return address into the program counter.
    Return,
    /// `1nnn`: jump to `nnn`.
    Jump(u16),
    /// `2nnn`: push the program counter, then jump to `nnn`.
    Call(u16),
    /// `3xnn`: skip the next instruction if `Vx == nn`.
    SkipEqImm(u8, u8),
    /// `4xnn`: skip the next instruction if `Vx != nn`.
    SkipNeImm(u8, u8),
    /// `5xy0`: skip the next instruction if `Vx == Vy`.
    SkipEqReg(u8, u8),
    /// `6xnn`: load `nn` into `Vx`.
    LoadImm(u8, u8),
    /// `7xnn`: add `nn` to `Vx` with wraparound; the flag register is not touched.
    AddImm(u8, u8),
    /// `8xy0`: copy `Vy` into `Vx`.
    CopyReg(u8, u8),
    /// `8xy1`: bitwise or of `Vy` into `Vx`.
    OrReg(u8, u8),
    /// `8xy2`: bitwise and of `Vy` into `Vx`.
    AndReg(u8, u8),
    /// `8xy3`: bitwise xor of `Vy` into `Vx`.
    XorReg(u8, u8),
    /// `8xy4`: wraparound sum into `Vx`; `VF` becomes 1 exactly on unsigned overflow.
    AddReg(u8, u8),
    /// `8xy5`: `Vx - Vy` with wraparound; `VF` becomes 1 exactly when no borrow occurred.
    SubReg(u8, u8),
    /// `8xy6`: `VF` takes the least significant bit of `Vx`, then `Vx` is halved.
    ShiftRight(u8),
    /// `8xy7`: `Vy - Vx` with wraparound into `Vx`; `VF` as for `8xy5`.
    SubFromReg(u8, u8),
    /// `8xyE`: `VF` takes the most significant bit of `Vx`, then `Vx` is doubled with wraparound.
    ShiftLeft(u8),
    /// `9xy0`: skip the next instruction if `Vx != Vy`.
    SkipNeReg(u8, u8),
    /// `Annn`: load `nnn` into the index register.
    SetIndex(u16),
    /// `Bnnn`: jump to `V0 + nnn`.
    JumpPlusV0(u16),
    /// `Cxnn`: load a random byte masked with `nn` into `Vx`.
    Random(u8, u8),
    /// `Dxyn`: draw an `n`-row sprite read at the index register onto the
    /// framebuffer at `(Vx, Vy)`; `VF` reports a collision.
    Draw(u8, u8, u8),
    /// `Ex9E`: skip the next instruction if the key named by `Vx` is pressed.
    SkipIfKey(u8),
    /// `ExA1`: skip the next instruction if the key named by `Vx` is not pressed.
    SkipIfNoKey(u8),
    /// `Fx07`: load the delay timer into `Vx`.
    ReadDelay(u8),
    /// `Fx0A`: if a key is pressed, load its lowest index into `Vx`;
    /// otherwise rewind the program counter so the instruction runs again.
    WaitKey(u8),
    /// `Fx15`: load `Vx` into the delay timer.
    SetDelay(u8),
    /// `Fx18`: load `Vx` into the sound timer.
    SetSound(u8),
    /// `Fx1E`: add `Vx` to the index register with wraparound.
    AddToIndex(u8),
    /// `Fx29`: point the index register at the glyph for the digit in `Vx`.
    GlyphAddress(u8),
    /// `Fx33`: write the decimal digits of `Vx` to memory at the index register.
    StoreBcd(u8),
    /// `Fx55`: store `V0..Vx` inclusive to memory at the index register.
    StoreRegisters(u8),
    /// `Fx65`: load `V0..Vx` inclusive from memory at the index register.
    LoadRegisters(u8),
    /// Any opcode outside the instruction table; executed as a no-op.
    Unknown(u16),
}

/// Splits an opcode word into its four nibbles and derived fields and
/// selects the instruction.  Total: every word decodes to something,
/// if only to `Unknown`.
pub open spec fn spec_decode(op: u16) -> Instr {
    let n0 = (op / 0x1000) % 16;
    let x = (((op / 0x100) % 16) as u8);
    let y = (((op / 0x10) % 16) as u8);
    let n = ((op % 16) as u8);
    let nn = ((op % 0x100) as u8);
    let nnn = ((op % 0x1000) as u16);
    if op == 0x0000 {
        Instr::Nop
    } else if op == 0x00E0 {
        Instr::ClearScreen
    } else if op == 0x00EE {
        Instr::Return
    } else if n0 == 0x1 {
        Instr::Jump(nnn)
    } else if n0 == 0x2 {
        Instr::Call(nnn)
    } else if n0 == 0x3 {
        Instr::SkipEqImm(x, nn)
    } else if n0 == 0x4 {
        Instr::SkipNeImm(x, nn)
    } else if n0 == 0x5 && n == 0x0 {
        Instr::SkipEqReg(x, y)
    } else if n0 == 0x6 {
        Instr::LoadImm(x, nn)
    } else if n0 == 0x7 {
        Instr::AddImm(x, nn)
    } else if n0 == 0x8 && n == 0x0 {
        Instr::CopyReg(x, y)
    } else if n0 == 0x8 && n == 0x1 {
        Instr::OrReg(x, y)
    } else if n0 == 0x8 && n == 0x2 {
        Instr::AndReg(x, y)
    } else if n0 == 0x8 && n == 0x3 {
        Instr::XorReg(x, y)
    } else if n0 == 0x8 && n == 0x4 {
        Instr::AddReg(x, y)
    } else if n0 == 0x8 && n == 0x5 {
        Instr::SubReg(x, y)
    } else if n0 == 0x8 && n == 0x6 {
        Instr::ShiftRight(x)
    } else if n0 == 0x8 && n == 0x7 {
        Instr::SubFromReg(x, y)
    } else if n0 == 0x8 && n == 0xE {
        Instr::ShiftLeft(x)
    } else if n0 == 0x9 && n == 0x0 {
        Instr::SkipNeReg(x, y)
    } else if n0 == 0xA {
        Instr::SetIndex(nnn)
    } else if n0 == 0xB {
        Instr::JumpPlusV0(nnn)
    } else if n0 == 0xC {
        Instr::Random(x, nn)
    } else if n0 == 0xD {
        Instr::Draw(x, y, n)
    } else if n0 == 0xE && nn == 0x9E {
        Instr::SkipIfKey(x)
    } else if n0 == 0xE && nn == 0xA1 {
        Instr::SkipIfNoKey(x)
    } else if n0 == 0xF && nn == 0x07 {
        Instr::ReadDelay(x)
    } else if n0 == 0xF && nn == 0x0A {
        Instr::WaitKey(x)
    } else if n0 == 0xF && nn == 0x15 {
        Instr::SetDelay(x)
    } else if n0 == 0xF && nn == 0x18 {
        Instr::SetSound(x)
    } else if n0 == 0xF && nn == 0x1E {
        Instr::AddToIndex(x)
    } else if n0 == 0xF && nn == 0x29 {
        Instr::GlyphAddress(x)
    } else if n0 == 0xF && nn == 0x33 {
        Instr::StoreBcd(x)
    } else if n0 == 0xF && nn == 0x55 {
        Instr::StoreRegisters(x)
    } else if n0 == 0xF && nn == 0x65 {
        Instr::LoadRegisters(x)
    } else {
        Instr::Unknown(op)
    }
}

/// Decodes an opcode word.
pub fn decode(op: u16) -> (instr: Instr)
    ensures
        instr == spec_decode(op),
{
    let n0: u16 = (op / 0x1000) % 16;
    let x: u8 = ((op / 0x100) % 16) as u8;
    let y: u8 = ((op / 0x10) % 16) as u8;
    let n: u8 = (op % 16) as u8;
    let nn: u8 = (op % 0x100) as u8;
    let nnn: u16 = op % 0x1000;
    if op == 0x0000 {
        Instr::Nop
    } else if op == 0x00E0 {
        Instr::ClearScreen
    } else if op == 0x00EE {
        Instr::Return
    } else if n0 == 0x1 {
        Instr::Jump(nnn)
    } else if n0 == 0x2 {
        Instr::Call(nnn)
    } else if n0 == 0x3 {
        Instr::SkipEqImm(x, nn)
    } else if n0 == 0x4 {
        Instr::SkipNeImm(x, nn)
    } else if n0 == 0x5 && n == 0x0 {
        Instr::SkipEqReg(x, y)
    } else if n0 == 0x6 {
        Instr::LoadImm(x, nn)
    } else if n0 == 0x7 {
        Instr::AddImm(x, nn)
    } else if n0 == 0x8 && n == 0x0 {
        Instr::CopyReg(x, y)
    } else if n0 == 0x8 && n == 0x1 {
        Instr::OrReg(x, y)
    } else if n0 == 0x8 && n == 0x2 {
        Instr::AndReg(x, y)
    } else if n0 == 0x8 && n == 0x3 {
        Instr::XorReg(x, y)
    } else if n0 == 0x8 && n == 0x4 {
        Instr::AddReg(x, y)
    } else if n0 == 0x8 && n == 0x5 {
        Instr::SubReg(x, y)
    } else if n0 == 0x8 && n == 0x6 {
        Instr::ShiftRight(x)
    } else if n0 == 0x8 && n == 0x7 {
        Instr::SubFromReg(x, y)
    } else if n0 == 0x8 && n == 0xE {
        Instr::ShiftLeft(x)
    } else if n0 == 0x9 && n == 0x0 {
        Instr::SkipNeReg(x, y)
    } else if n0 == 0xA {
        Instr::SetIndex(nnn)
    } else if n0 == 0xB {
        Instr::JumpPlusV0(nnn)
    } else if n0 == 0xC {
        Instr::Random(x, nn)
    } else if n0 == 0xD {
        Instr::Draw(x, y, n)
    } else if n0 == 0xE && nn == 0x9E {
        Instr::SkipIfKey(x)
    } else if n0 == 0xE && nn == 0xA1 {
        Instr::SkipIfNoKey(x)
    } else if n0 == 0xF && nn == 0x07 {
        Instr::ReadDelay(x)
    } else if n0 == 0xF && nn == 0x0A {
        Instr::WaitKey(x)
    } else if n0 == 0xF && nn == 0x15 {
        Instr::SetDelay(x)
    } else if n0 == 0xF && nn == 0x18 {
        Instr::SetSound(x)
    } else if n0 == 0xF && nn == 0x1E {
        Instr::AddToIndex(x)
    } else if n0 == 0xF && nn == 0x29 {
        Instr::GlyphAddress(x)
    } else if n0 == 0xF && nn == 0x33 {
        Instr::StoreBcd(x)
    } else if n0 == 0xF && nn == 0x55 {
        Instr::StoreRegisters(x)
    } else if n0 == 0xF && nn == 0x65 {
        Instr::LoadRegisters(x)
    } else {
        Instr::Unknown(op)
    }
}

} // verus!
