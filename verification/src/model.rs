use vstd::prelude::*;

verus! {

/// Width of the monochrome framebuffer, in pixels.
pub const SCREEN_WIDTH: usize = 64;

/// Height of the monochrome framebuffer, in pixels.
pub const SCREEN_HEIGHT: usize = 32;

/// Number of pixels in the framebuffer.
pub const SCREEN_SIZE: usize = 2048;

/// Number of addressable memory bytes.
pub const MEMORY_SIZE: usize = 4096;

/// Number of general-purpose registers.
pub const NUM_REGISTERS: usize = 16;

/// Greatest number of return addresses the call stack can hold.
pub const STACK_LIMIT: usize = 16;

/// Number of keys on the input pad.
pub const NUM_KEYS: usize = 16;

/// Address at which a loaded program image begins, and the power-on
/// value of the program counter.
pub const START_ADDRESS: u16 = 512;

/// Number of bytes of the built-in glyph font (16 glyphs of 5 bytes each).
pub const FONT_SIZE: usize = 80;

/// The faults an instruction cycle can report.  An unknown opcode is not
/// among them: it is treated as a no-op and execution continues.
#[derive(Clone, Copy, PartialEq, Eq, Debug, Structural)]
pub enum Chip8Error {
    /// A program image longer than the memory past the start address.
    RomTooLarge,
    /// The program counter ran past the end of memory, or an instruction
    /// asked to rewind it below zero.
    ProgramCounterOutOfBounds,
    /// A call was made with the call stack already full.
    CallStackOverflow,
    /// A return was asked for with the call stack empty.
    CallStackUnderflow,
    /// An instruction asked to read or write memory past its end.
    MemoryOutOfBounds,
}

/// The mathematical model of the whole machine state.
#[verifier::ext_equal]
pub ghost struct MachineView {
    /// Program counter.
    pub pc: u16,
    /// The 4096 memory bytes.
    pub memory: Seq<u8>,
    /// The 16 general-purpose registers `V0..VF`.
    pub v: Seq<u8>,
    /// Index register, a base pointer into memory.
    pub index: u16,
    /// Return addresses, most recent last.
    pub stack: Seq<u16>,
    /// Delay timer.
    pub delay: u8,
    /// Sound timer.
    pub sound: u8,
    /// Framebuffer pixels in row-major order, each 0 or 1.
    pub screen: Seq<u8>,
    /// Key states of the input pad.
    pub keys: Seq<bool>,
}

impl MachineView {
    /// Well-formedness: every component has its fixed size, the stack is
    /// within its limit, and every pixel is a single bit.
    pub open spec fn wf(self) -> bool {
        &&& self.memory.len() == MEMORY_SIZE
        &&& self.v.len() == NUM_REGISTERS
        &&& self.stack.len() <= STACK_LIMIT
        &&& self.screen.len() == SCREEN_SIZE
        &&& (forall|p: int| 0 <= p < SCREEN_SIZE ==> #[trigger] self.screen[p] <= 1)
        &&& self.keys.len() == NUM_KEYS
    }
}

/// The glyph font: 16 glyphs for the digits 0 through F, 5 bytes each.
pub open spec fn font() -> Seq<u8> {
    seq![
        0xF0u8, 0x90, 0x90, 0x90, 0xF0, // 0
        0x20, 0x60, 0x20, 0x20, 0x70, // 1
        0xF0, 0x10, 0xF0, 0x80, 0xF0, // 2
        0xF0, 0x10, 0xF0, 0x10, 0xF0, // 3
        0x90, 0x90, 0xF0, 0x10, 0x10, // 4
        0xF0, 0x80, 0xF0, 0x10, 0xF0, // 5
        0xF0, 0x80, 0xF0, 0x90, 0xF0, // 6
        0xF0, 0x10, 0x20, 0x40, 0x40, // 7
        0xF0, 0x90, 0xF0, 0x90, 0xF0, // 8
        0xF0, 0x90, 0xF0, 0x10, 0xF0, // 9
        0xF0, 0x90, 0xF0, 0x90, 0x90, // A
        0xE0, 0x90, 0xE0, 0x90, 0xE0, // B
        0xF0, 0x80, 0x80, 0x80, 0xF0, // C
        0xE0, 0x90, 0x90, 0x90, 0xE0, // D
        0xF0, 0x80, 0xF0, 0x80, 0xF0, // E
        0xF0, 0x80, 0xF0, 0x80, 0x80, // F
    ]
}

/// Memory after a program image `rom` is copied in at the start address.
pub open spec fn load_image(mem: Seq<u8>, rom: Seq<u8>) -> Seq<u8> {
    Seq::new(
        mem.len(),
        |j: int|
            if START_ADDRESS <= j < START_ADDRESS + rom.len() {
                rom[j - START_ADDRESS]
            } else {
                mem[j]
            },
    )
}

/// The power-on state: font at the bottom of memory, program counter at
/// the start address, everything else zeroed.
pub open spec fn power_on() -> MachineView {
    MachineView {
        pc: START_ADDRESS,
        memory: Seq::new(MEMORY_SIZE as nat, |j: int| if j < FONT_SIZE { font()[j] } else { 0u8 }),
        v: Seq::new(NUM_REGISTERS as nat, |j: int| 0u8),
        index: 0,
        stack: Seq::empty(),
        delay: 0,
        sound: 0,
        screen: Seq::new(SCREEN_SIZE as nat, |p: int| 0u8),
        keys: Seq::new(NUM_KEYS as nat, |k: int| false),
    }
}

} // verus!
