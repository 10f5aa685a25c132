use vstd::prelude::*;
use crate::model::{
    font, power_on, Chip8Error, MachineView, FONT_SIZE, MEMORY_SIZE, NUM_KEYS, NUM_REGISTERS,
    SCREEN_SIZE, STACK_LIMIT, START_ADDRESS,
};
use crate::decode::{decode, Instr};
use crate::draw::{
    blit_collision, blit_screen, cell_index, hit_col, hit_row, lemma_cell_of_hit,
    lemma_cell_round_trip, lemma_collision_accumulate, lemma_partial_collision_step,
    lemma_partial_full, lemma_partial_row_shift, lemma_partial_step_col, lemma_sprite_bit_le_one,
    lemma_xor_bit, partial_collision, partial_pixel, sprite_bit,
};
use crate::step::{
    bcd_hundreds, bcd_tens, bcd_units, carry, fetch_word, instr_outcome,
    lemma_lowest_pressed_prefix, load_registers, lowest_pressed_from, no_borrow, pc_skip,
    spec_tick, step_outcome, store_registers, timer_next, wrap_add, wrap_add16, wrap_sub,
};

verus! {

/// The CHIP-8 machine: registers, memory, call stack, timers,
/// framebuffer and keypad, driven one instruction cycle at a time.
pub struct Chip8 {
    /// Program counter.
    pc: u16,
    /// The 4096 memory bytes; the font sits at the bottom, a loaded
    /// program image starts at `START_ADDRESS`.
    memory: Vec<u8>,
    /// The 16 general-purpose registers `V0..VF`; `VF` doubles as the
    /// carry, borrow and collision flag.
    v_reg: Vec<u8>,
    /// Index register, a base pointer into memory.
    index_reg: u16,
    /// Return addresses, most recent last, at most `STACK_LIMIT` deep.
    stack: Vec<u16>,
    /// Sound timer; a tone plays while it is above zero.
    sound_timer: u8,
    /// Delay timer.
    delay_timer: u8,
    /// Framebuffer pixels in row-major order, each 0 or 1.
    screen: Vec<u8>,
    /// Key states of the input pad.
    keypad: Vec<bool>,
}

impl View for Chip8 {
    type V = MachineView;

    closed spec fn view(&self) -> MachineView {
        MachineView {
            pc: self.pc,
            memory: self.memory@,
            v: self.v_reg@,
            index: self.index_reg,
            stack: self.stack@,
            delay: self.delay_timer,
            sound: self.sound_timer,
            screen: self.screen@,
            keys: self.keypad@,
        }
    }
}

/// The font as bytes, glyph by glyph.
#[verifier::rlimit(100)]
fn font_rom() -> (rom: Vec<u8>)
    ensures
        rom@ == font(),
{
    let mut rom: Vec<u8> = Vec::new();
    rom.push(0xF0);
    rom.push(0x90);
    rom.push(0x90);
    rom.push(0x90);
    rom.push(0xF0);
    rom.push(0x20);
    rom.push(0x60);
    rom.push(0x20);
    rom.push(0x20);
    rom.push(0x70);
    rom.push(0xF0);
    rom.push(0x10);
    rom.push(0xF0);
    rom.push(0x80);
    rom.push(0xF0);
    rom.push(0xF0);
    rom.push(0x10);
    rom.push(0xF0);
    rom.push(0x10);
    rom.push(0xF0);
    rom.push(0x90);
    rom.push(0x90);
    rom.push(0xF0);
    rom.push(0x10);
    rom.push(0x10);
    rom.push(0xF0);
    rom.push(0x80);
    rom.push(0xF0);
    rom.push(0x10);
    rom.push(0xF0);
    rom.push(0xF0);
    rom.push(0x80);
    rom.push(0xF0);
    rom.push(0x90);
    rom.push(0xF0);
    rom.push(0xF0);
    rom.push(0x10);
    rom.push(0x20);
    rom.push(0x40);
    rom.push(0x40);
    rom.push(0xF0);
    rom.push(0x90);
    rom.push(0xF0);
    rom.push(0x90);
    rom.push(0xF0);
    rom.push(0xF0);
    rom.push(0x90);
    rom.push(0xF0);
    rom.push(0x10);
    rom.push(0xF0);
    rom.push(0xF0);
    rom.push(0x90);
    rom.push(0xF0);
    rom.push(0x90);
    rom.push(0x90);
    rom.push(0xE0);
    rom.push(0x90);
    rom.push(0xE0);
    rom.push(0x90);
    rom.push(0xE0);
    rom.push(0xF0);
    rom.push(0x80);
    rom.push(0x80);
    rom.push(0x80);
    rom.push(0xF0);
    rom.push(0xE0);
    rom.push(0x90);
    rom.push(0x90);
    rom.push(0x90);
    rom.push(0xE0);
    rom.push(0xF0);
    rom.push(0x80);
    rom.push(0xF0);
    rom.push(0x80);
    rom.push(0xF0);
    rom.push(0xF0);
    rom.push(0x80);
    rom.push(0xF0);
    rom.push(0x80);
    rom.push(0x80);
    proof {
        assert(rom@ =~= font());
    }
    rom
}

impl Chip8 {
    /// Builds the power-on machine: font at the bottom of memory, the
    /// program counter at the start address, everything else zeroed.
    pub fn new() -> (machine: Chip8)
        ensures
            machine@ == power_on(),
            machine@.wf(),
    {
        let mut memory = font_rom();
        while memory.len() < MEMORY_SIZE
            invariant
                FONT_SIZE <= memory@.len() <= MEMORY_SIZE,
                forall|j: int| 0 <= j < FONT_SIZE ==> memory@[j] == font()[j],
                forall|j: int| FONT_SIZE <= j < memory@.len() ==> memory@[j] == 0u8,
            decreases MEMORY_SIZE - memory@.len(),
        {
            memory.push(0);
        }
        let mut v_reg: Vec<u8> = Vec::new();
        while v_reg.len() < NUM_REGISTERS
            invariant
                v_reg@.len() <= NUM_REGISTERS,
                forall|j: int| 0 <= j < v_reg@.len() ==> v_reg@[j] == 0u8,
            decreases NUM_REGISTERS - v_reg@.len(),
        {
            v_reg.push(0);
        }
        let mut screen: Vec<u8> = Vec::new();
        while screen.len() < SCREEN_SIZE
            invariant
                screen@.len() <= SCREEN_SIZE,
                forall|j: int| 0 <= j < screen@.len() ==> screen@[j] == 0u8,
            decreases SCREEN_SIZE - screen@.len(),
        {
            screen.push(0);
        }
        let mut keypad: Vec<bool> = Vec::new();
        while keypad.len() < NUM_KEYS
            invariant
                keypad@.len() <= NUM_KEYS,
                forall|j: int| 0 <= j < keypad@.len() ==> keypad@[j] == false,
            decreases NUM_KEYS - keypad@.len(),
        {
            keypad.push(false);
        }
        let machine = Chip8 {
            pc: START_ADDRESS,
            memory,
            v_reg,
            index_reg: 0,
            stack: Vec::new(),
            sound_timer: 0,
            delay_timer: 0,
            screen,
            keypad,
        };
        proof {
            assert(machine@.memory =~= power_on().memory);
            assert(machine@.v =~= power_on().v);
            assert(machine@.screen =~= power_on().screen);
            assert(machine@.keys =~= power_on().keys);
            assert(machine@.stack =~= power_on().stack);
            assert(machine@ =~= power_on());
        }
        machine
    }

    /// Returns the machine to the power-on state.
    pub fn reset(&mut self)
        ensures
            final(self)@ == power_on(),
            final(self)@.wf(),
    {
        *self = Chip8::new();
    }

    /// Copies a program image into memory at the start address.  An
    /// image longer than the memory past that address is rejected whole
    /// and the machine is left untouched.
    pub fn load_rom(&mut self, rom: &Vec<u8>) -> (r: Result<(), Chip8Error>)
        requires
            old(self)@.wf(),
        ensures
            final(self)@.wf(),
            rom@.len() <= MEMORY_SIZE - START_ADDRESS ==> r == Ok::<(), Chip8Error>(())
                && final(self)@ == (MachineView {
                memory: crate::model::load_image(old(self)@.memory, rom@),
                ..old(self)@
            }),
            rom@.len() > MEMORY_SIZE - START_ADDRESS ==> r == Err::<(), Chip8Error>(
                Chip8Error::RomTooLarge,
            ) && final(self)@ == old(self)@,
    {
        if rom.len() > MEMORY_SIZE - START_ADDRESS as usize {
            return Err(Chip8Error::RomTooLarge);
        }
        let mut k: usize = 0;
        while k < rom.len()
            invariant
                old(self)@.wf(),
                rom@.len() <= MEMORY_SIZE - START_ADDRESS,
                0 <= k <= rom@.len(),
                self.pc == old(self).pc,
                self.v_reg == old(self).v_reg,
                self.index_reg == old(self).index_reg,
                self.stack == old(self).stack,
                self.sound_timer == old(self).sound_timer,
                self.delay_timer == old(self).delay_timer,
                self.screen == old(self).screen,
                self.keypad == old(self).keypad,
                self.memory@.len() == MEMORY_SIZE,
                forall|j: int|
                    START_ADDRESS <= j < START_ADDRESS + k ==> self.memory@[j] == rom@[j
                        - START_ADDRESS],
                forall|j: int|
                    0 <= j < MEMORY_SIZE && !(START_ADDRESS <= j < START_ADDRESS + k)
                        ==> self.memory@[j] == old(self)@.memory[j],
            decreases rom@.len() - k,
        {
            self.memory[START_ADDRESS as usize + k] = rom[k];
            k = k + 1;
        }
        proof {
            assert(self@.memory =~= crate::model::load_image(old(self)@.memory, rom@));
            assert(self@ =~= (MachineView {
                memory: crate::model::load_image(old(self)@.memory, rom@),
                ..old(self)@
            }));
        }
        Ok(())
    }

    /// Records a key going down or up.  An index beyond the pad names no
    /// key and is ignored.
    pub fn set_keypad(&mut self, key: usize, pressed: bool)
        requires
            old(self)@.wf(),
        ensures
            final(self)@.wf(),
            key < NUM_KEYS ==> final(self)@ == (MachineView {
                keys: old(self)@.keys.update(key as int, pressed),
                ..old(self)@
            }),
            key >= NUM_KEYS ==> final(self)@ == old(self)@,
    {
        if key < NUM_KEYS {
            self.keypad[key] = pressed;
            proof {
                assert(self@ =~= (MachineView {
                    keys: old(self)@.keys.update(key as int, pressed),
                    ..old(self)@
                }));
            }
        }
    }

    /// The framebuffer, row-major, one byte per pixel, 0 or 1.  The
    /// caller reads it to paint a frame and must not keep it across a
    /// mutation.
    pub fn get_display(&self) -> (screen: &Vec<u8>)
        ensures
            screen@ == self@.screen,
    {
        &self.screen
    }

    /// The value of register `Vi`.
    pub fn get_register(&self, i: u8) -> (value: u8)
        requires
            self@.wf(),
            i < NUM_REGISTERS,
        ensures
            value == self@.v[i as int],
    {
        self.v_reg[i as usize]
    }

    /// The program counter.
    pub fn get_pc(&self) -> (pc: u16)
        ensures
            pc == self@.pc,
    {
        self.pc
    }

    /// The index register.
    pub fn get_index(&self) -> (index: u16)
        ensures
            index == self@.index,
    {
        self.index_reg
    }

    /// The delay timer value.
    pub fn get_delay_timer(&self) -> (t: u8)
        ensures
            t == self@.delay,
    {
        self.delay_timer
    }

    /// The sound timer value.
    pub fn get_sound_timer(&self) -> (t: u8)
        ensures
            t == self@.sound,
    {
        self.sound_timer
    }

    /// Whether a tone should be sounding: the sound channel is active
    /// exactly while its timer is above zero.
    pub fn sound_active(&self) -> (active: bool)
        ensures
            active == (self@.sound > 0),
    {
        self.sound_timer > 0
    }

    /// How many return addresses the call stack holds.
    pub fn stack_depth(&self) -> (depth: usize)
        ensures
            depth == self@.stack.len(),
    {
        self.stack.len()
    }

    /// The memory byte at `addr`.
    pub fn read_byte(&self, addr: u16) -> (b: u8)
        requires
            self@.wf(),
            addr < MEMORY_SIZE,
        ensures
            b == self@.memory[addr as int],
    {
        self.memory[addr as usize]
    }

    /// Counts both timer channels down by one, each saturating at zero.
    /// Driven at a fixed rate (historically 60 Hz) independent of the
    /// instruction rate.
    pub fn timers(&mut self)
        requires
            old(self)@.wf(),
        ensures
            final(self)@.wf(),
            final(self)@ == (MachineView {
                delay: timer_next(old(self)@.delay),
                sound: timer_next(old(self)@.sound),
                ..old(self)@
            }),
    {
        if self.delay_timer > 0 {
            self.delay_timer = self.delay_timer - 1;
        }
        if self.sound_timer > 0 {
            self.sound_timer = self.sound_timer - 1;
        }
        proof {
            assert(self@ =~= (MachineView {
                delay: timer_next(old(self)@.delay),
                sound: timer_next(old(self)@.sound),
                ..old(self)@
            }));
        }
    }

    /// Reads the two memory bytes at the program counter, combines them
    /// big-endian into one opcode word, and advances the counter by 2.
    /// A counter within a byte of the end of memory means the program
    /// ran off the end: the fault is reported and nothing moves.
    pub fn fetch(&mut self) -> (r: Result<u16, Chip8Error>)
        requires
            old(self)@.wf(),
        ensures
            final(self)@.wf(),
            old(self)@.pc as int + 1 < MEMORY_SIZE ==> r == Ok::<u16, Chip8Error>(
                fetch_word(old(self)@),
            ) && final(self)@ == (MachineView { pc: (old(self)@.pc + 2) as u16, ..old(self)@ }),
            old(self)@.pc as int + 1 >= MEMORY_SIZE ==> r == Err::<u16, Chip8Error>(
                Chip8Error::ProgramCounterOutOfBounds,
            ) && final(self)@ == old(self)@,
    {
        if self.pc as usize + 1 >= MEMORY_SIZE {
            return Err(Chip8Error::ProgramCounterOutOfBounds);
        }
        let hi = self.memory[self.pc as usize] as u16;
        let lo = self.memory[self.pc as usize + 1] as u16;
        let op = hi * 256 + lo;
        self.pc = self.pc + 2;
        proof {
            assert(self@ =~= (MachineView { pc: (old(self)@.pc + 2) as u16, ..old(self)@ }));
        }
        Ok(op)
    }

    /// Pushes a return address onto the call stack; at the stack limit
    /// nothing is pushed and the overflow is reported.
    fn push(&mut self, val: u16) -> (r: Result<(), Chip8Error>)
        requires
            old(self)@.wf(),
        ensures
            final(self)@.wf(),
            old(self)@.stack.len() < STACK_LIMIT ==> r == Ok::<(), Chip8Error>(()) && final(self)@
                == (MachineView { stack: old(self)@.stack.push(val), ..old(self)@ }),
            old(self)@.stack.len() >= STACK_LIMIT ==> r == Err::<(), Chip8Error>(
                Chip8Error::CallStackOverflow,
            ) && final(self)@ == old(self)@,
    {
        if self.stack.len() >= STACK_LIMIT {
            return Err(Chip8Error::CallStackOverflow);
        }
        self.stack.push(val);
        proof {
            assert(self@ =~= (MachineView { stack: old(self)@.stack.push(val), ..old(self)@ }));
        }
        Ok(())
    }

    /// Pops the most recent return address; an empty stack is reported
    /// as underflow.
    fn pop(&mut self) -> (r: Result<u16, Chip8Error>)
        requires
            old(self)@.wf(),
        ensures
            final(self)@.wf(),
            old(self)@.stack.len() > 0 ==> r == Ok::<u16, Chip8Error>(old(self)@.stack.last())
                && final(self)@ == (MachineView {
                stack: old(self)@.stack.drop_last(),
                ..old(self)@
            }),
            old(self)@.stack.len() == 0 ==> r == Err::<u16, Chip8Error>(
                Chip8Error::CallStackUnderflow,
            ) && final(self)@ == old(self)@,
    {
        match self.stack.pop() {
            Some(addr) => {
                proof {
                    assert(self@.stack =~= old(self)@.stack.drop_last());
                    assert(self@ =~= (MachineView {
                        stack: old(self)@.stack.drop_last(),
                        ..old(self)@
                    }));
                }
                Ok(addr)
            },
            None => Err(Chip8Error::CallStackUnderflow),
        }
    }

    /// One fetch-decode-execute cycle.  The random source is consulted
    /// only by the `Cxnn` instruction; its byte is the witness below.
    pub fn tick(&mut self) -> (r: Result<(), Chip8Error>)
        requires
            old(self)@.wf(),
        ensures
            final(self)@.wf(),
            exists|b: u8| (final(self)@, r) == spec_tick(old(self)@, b),
    {
        let op = match self.fetch() {
            Ok(op) => op,
            Err(e) => {
                proof {
                    assert((self@, Err::<(), Chip8Error>(e)) == spec_tick(old(self)@, 0u8));
                }
                return Err(e);
            },
        };
        let ghost mid = (MachineView { pc: (old(self)@.pc + 2) as u16, ..old(self)@ });
        let r = self.execute(op);
        proof {
            let b = choose|b: u8| #[trigger] step_outcome(mid, op, b, self@, r);
            assert((self@, r) == spec_tick(old(self)@, b));
        }
        r
    }

    /// Executes one already-fetched opcode word, drawing from the real
    /// random source for `Cxnn`.
    pub fn execute(&mut self, op: u16) -> (r: Result<(), Chip8Error>)
        requires
            old(self)@.wf(),
        ensures
            final(self)@.wf(),
            exists|b: u8| step_outcome(old(self)@, op, b, final(self)@, r),
    {
        let rnd = crate::rng::random_byte();
        let r = self.execute_with(op, rnd);
        proof {
            assert(step_outcome(old(self)@, op, rnd, self@, r));
        }
        r
    }

    /// Executes one opcode word with the random byte supplied by the
    /// caller, so that runs can be made deterministic.  This is the whole
    /// instruction table; an opcode outside it changes nothing.
    #[verifier::loop_isolation(false)]
    pub fn execute_with(&mut self, op: u16, rnd: u8) -> (r: Result<(), Chip8Error>)
        requires
            old(self)@.wf(),
        ensures
            final(self)@.wf(),
            step_outcome(old(self)@, op, rnd, final(self)@, r),
    {
        let instr = decode(op);
        match instr {
            Instr::Nop => Ok(()),
            Instr::ClearScreen => {
                let mut p: usize = 0;
                while p < SCREEN_SIZE
                    invariant
                        old(self)@.wf(),
                        0 <= p <= SCREEN_SIZE,
                        self.pc == old(self).pc,
                        self.memory == old(self).memory,
                        self.v_reg == old(self).v_reg,
                        self.index_reg == old(self).index_reg,
                        self.stack == old(self).stack,
                        self.sound_timer == old(self).sound_timer,
                        self.delay_timer == old(self).delay_timer,
                        self.keypad == old(self).keypad,
                        self.screen@.len() == SCREEN_SIZE,
                        forall|j: int| 0 <= j < p ==> self.screen@[j] == 0u8,
                        forall|j: int| p <= j < SCREEN_SIZE ==> self.screen@[j] == old(
                            self,
                        )@.screen[j],
                    decreases SCREEN_SIZE - p,
                {
                    self.screen[p] = 0;
                    p = p + 1;
                }
                proof {
                    assert(self@.screen =~= Seq::new(old(self)@.screen.len(), |q: int| 0u8));
                    assert(self@ =~= (MachineView {
                        screen: Seq::new(old(self)@.screen.len(), |q: int| 0u8),
                        ..old(self)@
                    }));
                }
                Ok(())
            },
            Instr::Return => {
                match self.pop() {
                    Ok(addr) => {
                        self.pc = addr;
                        proof {
                            assert(self@ =~= (MachineView {
                                pc: old(self)@.stack.last(),
                                stack: old(self)@.stack.drop_last(),
                                ..old(self)@
                            }));
                        }
                        Ok(())
                    },
                    Err(e) => Err(e),
                }
            },
            Instr::Jump(nnn) => {
                self.pc = nnn;
                proof {
                    assert(self@ =~= (MachineView { pc: nnn, ..old(self)@ }));
                }
                Ok(())
            },
            Instr::Call(nnn) => {
                let here = self.pc;
                match self.push(here) {
                    Ok(()) => {
                        self.pc = nnn;
                        proof {
                            assert(self@ =~= (MachineView {
                                pc: nnn,
                                stack: old(self)@.stack.push(old(self)@.pc),
                                ..old(self)@
                            }));
                        }
                        Ok(())
                    },
                    Err(e) => Err(e),
                }
            },
            Instr::SkipEqImm(x, nn) => {
                proof {
                    assert(x < 16);
                }
                if self.v_reg[x as usize] == nn {
                    self.pc = skip_pc(self.pc);
                    proof {
                        assert(self@ =~= (MachineView { pc: pc_skip(old(self)@.pc), ..old(self)@ }));
                    }
                }
                Ok(())
            },
            Instr::SkipNeImm(x, nn) => {
                proof {
                    assert(x < 16);
                }
                if self.v_reg[x as usize] != nn {
                    self.pc = skip_pc(self.pc);
                    proof {
                        assert(self@ =~= (MachineView { pc: pc_skip(old(self)@.pc), ..old(self)@ }));
                    }
                }
                Ok(())
            },
            Instr::SkipEqReg(x, y) => {
                proof {
                    assert(x < 16 && y < 16);
                }
                if self.v_reg[x as usize] == self.v_reg[y as usize] {
                    self.pc = skip_pc(self.pc);
                    proof {
                        assert(self@ =~= (MachineView { pc: pc_skip(old(self)@.pc), ..old(self)@ }));
                    }
                }
                Ok(())
            },
            Instr::SkipNeReg(x, y) => {
                proof {
                    assert(x < 16 && y < 16);
                }
                if self.v_reg[x as usize] != self.v_reg[y as usize] {
                    self.pc = skip_pc(self.pc);
                    proof {
                        assert(self@ =~= (MachineView { pc: pc_skip(old(self)@.pc), ..old(self)@ }));
                    }
                }
                Ok(())
            },
            Instr::LoadImm(x, nn) => {
                proof {
                    assert(x < 16);
                }
                self.v_reg[x as usize] = nn;
                proof {
                    assert(self@ =~= (MachineView {
                        v: old(self)@.v.update(x as int, nn),
                        ..old(self)@
                    }));
                }
                Ok(())
            },
            Instr::AddImm(x, nn) => {
                proof {
                    assert(x < 16);
                }
                let sum = wrapping_add_byte(self.v_reg[x as usize], nn);
                self.v_reg[x as usize] = sum;
                proof {
                    assert(self@ =~= (MachineView {
                        v: old(self)@.v.update(x as int, wrap_add(old(self)@.v[x as int], nn)),
                        ..old(self)@
                    }));
                }
                Ok(())
            },
            Instr::CopyReg(x, y) => {
                proof {
                    assert(x < 16 && y < 16);
                }
                self.v_reg[x as usize] = self.v_reg[y as usize];
                proof {
                    assert(self@ =~= (MachineView {
                        v: old(self)@.v.update(x as int, old(self)@.v[y as int]),
                        ..old(self)@
                    }));
                }
                Ok(())
            },
            Instr::OrReg(x, y) => {
                proof {
                    assert(x < 16 && y < 16);
                }
                let value = self.v_reg[x as usize] | self.v_reg[y as usize];
                self.v_reg[x as usize] = value;
                proof {
                    assert(self@ =~= (MachineView {
                        v: old(self)@.v.update(
                            x as int,
                            old(self)@.v[x as int] | old(self)@.v[y as int],
                        ),
                        ..old(self)@
                    }));
                }
                Ok(())
            },
            Instr::AndReg(x, y) => {
                proof {
                    assert(x < 16 && y < 16);
                }
                let value = self.v_reg[x as usize] & self.v_reg[y as usize];
                self.v_reg[x as usize] = value;
                proof {
                    assert(self@ =~= (MachineView {
                        v: old(self)@.v.update(
                            x as int,
                            old(self)@.v[x as int] & old(self)@.v[y as int],
                        ),
                        ..old(self)@
                    }));
                }
                Ok(())
            },
            Instr::XorReg(x, y) => {
                proof {
                    assert(x < 16 && y < 16);
                }
                let value = self.v_reg[x as usize] ^ self.v_reg[y as usize];
                self.v_reg[x as usize] = value;
                proof {
                    assert(self@ =~= (MachineView {
                        v: old(self)@.v.update(
                            x as int,
                            old(self)@.v[x as int] ^ old(self)@.v[y as int],
                        ),
                        ..old(self)@
                    }));
                }
                Ok(())
            },
            Instr::AddReg(x, y) => {
                proof {
                    assert(x < 16 && y < 16);
                }
                let vx = self.v_reg[x as usize];
                let vy = self.v_reg[y as usize];
                let sum = wrapping_add_byte(vx, vy);
                let flag: u8 = if (vx as u16) + (vy as u16) > 255 {
                    1
                } else {
                    0
                };
                self.v_reg[x as usize] = sum;
                self.v_reg[15] = flag;
                proof {
                    assert(self@ =~= (MachineView {
                        v: old(self)@.v.update(x as int, wrap_add(vx, vy)).update(
                            15,
                            carry(vx, vy),
                        ),
                        ..old(self)@
                    }));
                }
                Ok(())
            },
            Instr::SubReg(x, y) => {
                proof {
                    assert(x < 16 && y < 16);
                }
                let vx = self.v_reg[x as usize];
                let vy = self.v_reg[y as usize];
                let diff = wrapping_sub_byte(vx, vy);
                let flag: u8 = if vx >= vy {
                    1
                } else {
                    0
                };
                self.v_reg[x as usize] = diff;
                self.v_reg[15] = flag;
                proof {
                    assert(self@ =~= (MachineView {
                        v: old(self)@.v.update(x as int, wrap_sub(vx, vy)).update(
                            15,
                            no_borrow(vx, vy),
                        ),
                        ..old(self)@
                    }));
                }
                Ok(())
            },
            Instr::SubFromReg(x, y) => {
                proof {
                    assert(x < 16 && y < 16);
                }
                let vx = self.v_reg[x as usize];
                let vy = self.v_reg[y as usize];
                let diff = wrapping_sub_byte(vy, vx);
                let flag: u8 = if vy >= vx {
                    1
                } else {
                    0
                };
                self.v_reg[x as usize] = diff;
                self.v_reg[15] = flag;
                proof {
                    assert(self@ =~= (MachineView {
                        v: old(self)@.v.update(x as int, wrap_sub(vy, vx)).update(
                            15,
                            no_borrow(vy, vx),
                        ),
                        ..old(self)@
                    }));
                }
                Ok(())
            },
            Instr::ShiftRight(x) => {
                proof {
                    assert(x < 16);
                }
                let vx = self.v_reg[x as usize];
                self.v_reg[x as usize] = vx / 2;
                self.v_reg[15] = vx % 2;
                proof {
                    assert(self@ =~= (MachineView {
                        v: old(self)@.v.update(x as int, (vx / 2) as u8).update(
                            15,
                            (vx % 2) as u8,
                        ),
                        ..old(self)@
                    }));
                }
                Ok(())
            },
            Instr::ShiftLeft(x) => {
                proof {
                    assert(x < 16);
                }
                let vx = self.v_reg[x as usize];
                let doubled = wrapping_add_byte(vx, vx);
                self.v_reg[x as usize] = doubled;
                self.v_reg[15] = vx / 128;
                proof {
                    assert(self@ =~= (MachineView {
                        v: old(self)@.v.update(x as int, wrap_add(vx, vx)).update(
                            15,
                            (vx / 128) as u8,
                        ),
                        ..old(self)@
                    }));
                }
                Ok(())
            },
            Instr::SetIndex(nnn) => {
                self.index_reg = nnn;
                proof {
                    assert(self@ =~= (MachineView { index: nnn, ..old(self)@ }));
                }
                Ok(())
            },
            Instr::JumpPlusV0(nnn) => {
                proof {
                    assert(nnn < 4096);
                }
                self.pc = self.v_reg[0] as u16 + nnn;
                proof {
                    assert(self@ =~= (MachineView {
                        pc: (old(self)@.v[0] + nnn) as u16,
                        ..old(self)@
                    }));
                }
                Ok(())
            },
            Instr::Random(x, nn) => {
                proof {
                    assert(x < 16);
                }
                self.v_reg[x as usize] = rnd & nn;
                proof {
                    assert(self@ =~= (MachineView {
                        v: old(self)@.v.update(x as int, rnd & nn),
                        ..old(self)@
                    }));
                }
                Ok(())
            },
            Instr::Draw(x, y, n) => {
                proof {
                    assert(x < 16 && y < 16 && n < 16);
                }
                self.draw_sprite(x, y, n)
            },
            Instr::SkipIfKey(x) => {
                proof {
                    assert(x < 16);
                }
                let key = self.v_reg[x as usize];
                if key < 16 && self.keypad[key as usize] {
                    self.pc = skip_pc(self.pc);
                    proof {
                        assert(self@ =~= (MachineView { pc: pc_skip(old(self)@.pc), ..old(self)@ }));
                    }
                }
                Ok(())
            },
            Instr::SkipIfNoKey(x) => {
                proof {
                    assert(x < 16);
                }
                let key = self.v_reg[x as usize];
                if !(key < 16 && self.keypad[key as usize]) {
                    self.pc = skip_pc(self.pc);
                    proof {
                        assert(self@ =~= (MachineView { pc: pc_skip(old(self)@.pc), ..old(self)@ }));
                    }
                }
                Ok(())
            },
            Instr::ReadDelay(x) => {
                proof {
                    assert(x < 16);
                }
                self.v_reg[x as usize] = self.delay_timer;
                proof {
                    assert(self@ =~= (MachineView {
                        v: old(self)@.v.update(x as int, old(self)@.delay),
                        ..old(self)@
                    }));
                }
                Ok(())
            },
            Instr::WaitKey(x) => {
                proof {
                    assert(x < 16);
                }
                let mut k: usize = 0;
                while k < NUM_KEYS
                    invariant
                        old(self)@.wf(),
                        x < 16,
                        0 <= k <= NUM_KEYS,
                        self == old(self),
                        forall|j: int| 0 <= j < k ==> !old(self)@.keys[j],
                    decreases NUM_KEYS - k,
                {
                    if self.keypad[k] {
                        self.v_reg[x as usize] = k as u8;
                        proof {
                            lemma_lowest_pressed_prefix(old(self)@.keys, k as int);
                            assert(lowest_pressed_from(old(self)@.keys, 0) == k);
                            assert(self@ =~= (MachineView {
                                v: old(self)@.v.update(x as int, k as u8),
                                ..old(self)@
                            }));
                        }
                        return Ok(());
                    }
                    k = k + 1;
                }
                proof {
                    lemma_lowest_pressed_prefix(old(self)@.keys, NUM_KEYS as int);
                    assert(lowest_pressed_from(old(self)@.keys, 0) == 16);
                }
                if self.pc >= 2 {
                    self.pc = self.pc - 2;
                    proof {
                        assert(self@ =~= (MachineView {
                            pc: (old(self)@.pc - 2) as u16,
                            ..old(self)@
                        }));
                    }
                    Ok(())
                } else {
                    Err(Chip8Error::ProgramCounterOutOfBounds)
                }
            },
            Instr::SetDelay(x) => {
                proof {
                    assert(x < 16);
                }
                self.delay_timer = self.v_reg[x as usize];
                proof {
                    assert(self@ =~= (MachineView { delay: old(self)@.v[x as int], ..old(self)@ }));
                }
                Ok(())
            },
            Instr::SetSound(x) => {
                proof {
                    assert(x < 16);
                }
                self.sound_timer = self.v_reg[x as usize];
                proof {
                    assert(self@ =~= (MachineView { sound: old(self)@.v[x as int], ..old(self)@ }));
                }
                Ok(())
            },
            Instr::AddToIndex(x) => {
                proof {
                    assert(x < 16);
                }
                let vx = self.v_reg[x as usize];
                self.index_reg = wrapping_add_word(self.index_reg, vx as u16);
                proof {
                    assert(self@ =~= (MachineView {
                        index: wrap_add16(old(self)@.index, old(self)@.v[x as int] as u16),
                        ..old(self)@
                    }));
                }
                Ok(())
            },
            Instr::GlyphAddress(x) => {
                proof {
                    assert(x < 16);
                }
                self.index_reg = self.v_reg[x as usize] as u16 * 5;
                proof {
                    assert(self@ =~= (MachineView {
                        index: (old(self)@.v[x as int] * 5) as u16,
                        ..old(self)@
                    }));
                }
                Ok(())
            },
            Instr::StoreBcd(x) => {
                proof {
                    assert(x < 16);
                }
                if self.index_reg as usize + 3 > MEMORY_SIZE {
                    return Err(Chip8Error::MemoryOutOfBounds);
                }
                let vx = self.v_reg[x as usize];
                let i = self.index_reg as usize;
                self.memory[i] = vx / 100;
                self.memory[i + 1] = (vx / 10) % 10;
                self.memory[i + 2] = vx % 10;
                proof {
                    assert(self@ =~= (MachineView {
                        memory: old(self)@.memory.update(
                            old(self)@.index as int,
                            bcd_hundreds(old(self)@.v[x as int]),
                        ).update(old(self)@.index + 1, bcd_tens(old(self)@.v[x as int])).update(
                            old(self)@.index + 2,
                            bcd_units(old(self)@.v[x as int]),
                        ),
                        ..old(self)@
                    }));
                }
                Ok(())
            },
            Instr::StoreRegisters(x) => {
                proof {
                    assert(x < 16);
                }
                if self.index_reg as usize + x as usize + 1 > MEMORY_SIZE {
                    return Err(Chip8Error::MemoryOutOfBounds);
                }
                let mut k: usize = 0;
                while k <= x as usize
                    invariant
                        old(self)@.wf(),
                        x < 16,
                        0 <= k <= x + 1,
                        old(self)@.index + x + 1 <= MEMORY_SIZE,
                        self.pc == old(self).pc,
                        self.v_reg == old(self).v_reg,
                        self.index_reg == old(self).index_reg,
                        self.stack == old(self).stack,
                        self.sound_timer == old(self).sound_timer,
                        self.delay_timer == old(self).delay_timer,
                        self.screen == old(self).screen,
                        self.keypad == old(self).keypad,
                        self.memory@.len() == MEMORY_SIZE,
                        forall|j: int|
                            old(self)@.index <= j < old(self)@.index + k
                                ==> self.memory@[j] == old(self)@.v[j - old(self)@.index],
                        forall|j: int|
                            0 <= j < MEMORY_SIZE && !(old(self)@.index <= j < old(self)@.index + k)
                                ==> self.memory@[j] == old(self)@.memory[j],
                    decreases x + 1 - k,
                {
                    self.memory[self.index_reg as usize + k] = self.v_reg[k];
                    k = k + 1;
                }
                proof {
                    assert(self@.memory =~= store_registers(
                        old(self)@.memory,
                        old(self)@.v,
                        old(self)@.index,
                        x,
                    ));
                    assert(self@ =~= (MachineView {
                        memory: store_registers(
                            old(self)@.memory,
                            old(self)@.v,
                            old(self)@.index,
                            x,
                        ),
                        ..old(self)@
                    }));
                }
                Ok(())
            },
            Instr::LoadRegisters(x) => {
                proof {
                    assert(x < 16);
                }
                if self.index_reg as usize + x as usize + 1 > MEMORY_SIZE {
                    return Err(Chip8Error::MemoryOutOfBounds);
                }
                let mut k: usize = 0;
                while k <= x as usize
                    invariant
                        old(self)@.wf(),
                        x < 16,
                        0 <= k <= x + 1,
                        old(self)@.index + x + 1 <= MEMORY_SIZE,
                        self.pc == old(self).pc,
                        self.memory == old(self).memory,
                        self.index_reg == old(self).index_reg,
                        self.stack == old(self).stack,
                        self.sound_timer == old(self).sound_timer,
                        self.delay_timer == old(self).delay_timer,
                        self.screen == old(self).screen,
                        self.keypad == old(self).keypad,
                        self.v_reg@.len() == NUM_REGISTERS,
                        forall|j: int|
                            0 <= j < k ==> self.v_reg@[j] == old(self)@.memory[old(self)@.index
                                + j],
                        forall|j: int| k <= j < NUM_REGISTERS ==> self.v_reg@[j] == old(self)@.v[j],
                    decreases x + 1 - k,
                {
                    self.v_reg[k] = self.memory[self.index_reg as usize + k];
                    k = k + 1;
                }
                proof {
                    assert(self@.v =~= load_registers(
                        old(self)@.v,
                        old(self)@.memory,
                        old(self)@.index,
                        x,
                    ));
                    assert(self@ =~= (MachineView {
                        v: load_registers(old(self)@.v, old(self)@.memory, old(self)@.index, x),
                        ..old(self)@
                    }));
                }
                Ok(())
            },
            Instr::Unknown(_) => Ok(()),
        }
    }

    /// Draws an `n`-row sprite read from memory at the index register
    /// onto the framebuffer at the coordinates in `Vx` and `Vy`, flipping
    /// pixels and accumulating the collision flag into `VF` last.
    fn draw_sprite(&mut self, x: u8, y: u8, n: u8) -> (r: Result<(), Chip8Error>)
        requires
            old(self)@.wf(),
            x < 16,
            y < 16,
            n < 16,
        ensures
            final(self)@.wf(),
            instr_outcome(old(self)@, Instr::Draw(x, y, n), 0u8, final(self)@, r),
    {
        if self.index_reg as usize + n as usize > MEMORY_SIZE {
            return Err(Chip8Error::MemoryOutOfBounds);
        }
        let vx = self.v_reg[x as usize];
        let vy = self.v_reg[y as usize];
        let mut collision: u8 = 0;
        let mut row: usize = 0;
        proof {
            assert forall|p: int| 0 <= p < SCREEN_SIZE implies #[trigger] self.screen@[p]
                == partial_pixel(
                old(self)@.memory,
                old(self)@.index,
                vx,
                vy,
                n,
                old(self)@.screen[p],
                p,
                0,
                0,
            ) by {}
        }
        while row < n as usize
            invariant
                old(self)@.wf(),
                x < 16,
                y < 16,
                n < 16,
                vx == old(self)@.v[x as int],
                vy == old(self)@.v[y as int],
                old(self)@.index + n <= MEMORY_SIZE,
                0 <= row <= n,
                self.pc == old(self).pc,
                self.memory == old(self).memory,
                self.v_reg == old(self).v_reg,
                self.index_reg == old(self).index_reg,
                self.stack == old(self).stack,
                self.sound_timer == old(self).sound_timer,
                self.delay_timer == old(self).delay_timer,
                self.keypad == old(self).keypad,
                self.screen@.len() == SCREEN_SIZE,
                forall|p: int|
                    0 <= p < SCREEN_SIZE ==> #[trigger] self.screen@[p] == partial_pixel(
                        old(self)@.memory,
                        old(self)@.index,
                        vx,
                        vy,
                        n,
                        old(self)@.screen[p],
                        p,
                        row as int,
                        0,
                    ),
                collision <= 1,
                (collision == 1) == partial_collision(
                    old(self)@.screen,
                    old(self)@.memory,
                    old(self)@.index,
                    vx,
                    vy,
                    n,
                    row as int,
                    0,
                ),
            decreases n - row,
        {
            let row_byte = self.memory[self.index_reg as usize + row];
            let yy = (vy as usize + row) % 32;
            let mut col: usize = 0;
            while col < 8
                invariant
                    old(self)@.wf(),
                    x < 16,
                    y < 16,
                    n < 16,
                    vx == old(self)@.v[x as int],
                    vy == old(self)@.v[y as int],
                    old(self)@.index + n <= MEMORY_SIZE,
                    0 <= row < n,
                    0 <= col <= 8,
                    yy == (vy + row) % 32,
                    row_byte == old(self)@.memory[old(self)@.index + row],
                    self.pc == old(self).pc,
                    self.memory == old(self).memory,
                    self.v_reg == old(self).v_reg,
                    self.index_reg == old(self).index_reg,
                    self.stack == old(self).stack,
                    self.sound_timer == old(self).sound_timer,
                    self.delay_timer == old(self).delay_timer,
                    self.keypad == old(self).keypad,
                    self.screen@.len() == SCREEN_SIZE,
                    forall|p: int|
                        0 <= p < SCREEN_SIZE ==> #[trigger] self.screen@[p] == partial_pixel(
                            old(self)@.memory,
                            old(self)@.index,
                            vx,
                            vy,
                            n,
                            old(self)@.screen[p],
                            p,
                            row as int,
                            col as int,
                        ),
                    collision <= 1,
                    (collision == 1) == partial_collision(
                        old(self)@.screen,
                        old(self)@.memory,
                        old(self)@.index,
                        vx,
                        vy,
                        n,
                        row as int,
                        col as int,
                    ),
                decreases 8 - col,
            {
                let xx = (vx as usize + col) % 64;
                let sprite_px = (row_byte >> ((7 - col) as u8)) & 1;
                let idx = yy * 64 + xx;
                proof {
                    lemma_cell_round_trip(vx, vy, row as int, col as int);
                    assert(idx == cell_index(vx, vy, row as int, col as int));
                    assert(sprite_px == sprite_bit(
                        old(self)@.memory[old(self)@.index + row],
                        col as int,
                    ));
                    lemma_sprite_bit_le_one(old(self)@.memory[old(self)@.index + row], col as int);
                    lemma_partial_step_col(
                        old(self)@.memory,
                        old(self)@.index,
                        vx,
                        vy,
                        n,
                        old(self)@.screen,
                        self.screen@,
                        row as int,
                        col as int,
                    );
                }
                let px = self.screen[idx];
                proof {
                    assert(px == old(self)@.screen[idx as int]);
                    assert(px <= 1);
                    lemma_collision_accumulate(collision, sprite_px, px);
                    lemma_partial_collision_step(
                        old(self)@.screen,
                        old(self)@.memory,
                        old(self)@.index,
                        vx,
                        vy,
                        n,
                        row as int,
                        col as int,
                    );
                }
                collision = collision | (sprite_px & px);
                self.screen[idx] = px ^ sprite_px;
                col = col + 1;
            }
            proof {
                lemma_partial_row_shift(
                    old(self)@.screen,
                    old(self)@.memory,
                    old(self)@.index,
                    vx,
                    vy,
                    n,
                    row as int,
                );
            }
            row = row + 1;
        }
        proof {
            lemma_partial_full(
                old(self)@.screen,
                old(self)@.memory,
                old(self)@.index,
                vx,
                vy,
                n,
            );
        }
        self.v_reg[15] = collision;
        proof {
            assert(self@.screen =~= blit_screen(
                old(self)@.screen,
                old(self)@.memory,
                old(self)@.index,
                vx,
                vy,
                n,
            ));
            assert forall|p: int| 0 <= p < SCREEN_SIZE implies #[trigger] self@.screen[p]
                <= 1 by {
                lemma_cell_of_hit(vx, vy, p);
                if hit_row(vy, p) < n && hit_col(vx, p) < 8 {
                    lemma_sprite_bit_le_one(
                        old(self)@.memory[old(self)@.index + hit_row(vy, p)],
                        hit_col(vx, p),
                    );
                    lemma_xor_bit(
                        old(self)@.screen[p],
                        sprite_bit(
                            old(self)@.memory[old(self)@.index + hit_row(vy, p)],
                            hit_col(vx, p),
                        ),
                    );
                }
            }
            assert(self@ =~= (MachineView {
                screen: blit_screen(
                    old(self)@.screen,
                    old(self)@.memory,
                    old(self)@.index,
                    vx,
                    vy,
                    n,
                ),
                v: old(self)@.v.update(
                    15,
                    if blit_collision(
                        old(self)@.screen,
                        old(self)@.memory,
                        old(self)@.index,
                        vx,
                        vy,
                        n,
                    ) {
                        1u8
                    } else {
                        0u8
                    },
                ),
                ..old(self)@
            }));
        }
        Ok(())
    }
}

/// The program counter moved forward over one instruction, wrapping.
fn skip_pc(pc: u16) -> (r: u16)
    ensures
        r == pc_skip(pc),
{
    if pc > 65533 {
        pc - 65534
    } else {
        pc + 2
    }
}

/// Byte addition with wraparound.
fn wrapping_add_byte(a: u8, b: u8) -> (r: u8)
    ensures
        r == wrap_add(a, b),
{
    let s = a as u16 + b as u16;
    if s > 255 {
        (s - 256) as u8
    } else {
        s as u8
    }
}

/// Byte subtraction with wraparound.
fn wrapping_sub_byte(a: u8, b: u8) -> (r: u8)
    ensures
        r == wrap_sub(a, b),
{
    if a >= b {
        a - b
    } else {
        ((a as u16 + 256) - b as u16) as u8
    }
}

/// Word addition with wraparound.
fn wrapping_add_word(a: u16, b: u16) -> (r: u16)
    ensures
        r == wrap_add16(a, b),
{
    if a > 65535 - b {
        a - (65535 - b) - 1
    } else {
        a + b
    }
}

} // verus!
