//! The CPU: fetch, decode and execute over 4096 bytes of memory, 16
//! registers, a 16-deep call stack, two countdown timers, the index register
//! and the program counter, together with the display it owns.

use vstd::prelude::*;
use crate::display::Display;
use crate::keyboard::Keyboard;

verus! {

/// Address at which loaded programs begin.
pub const PROGRAM_START: u16 = 0x200;

/// Bytes available to a loaded program (`0x200..=0xFFF`).
pub const PROGRAM_CAPACITY: usize = 3584;

/// A defined failure of the interpreter: a guest-program error (stack
/// misuse, an instruction word matching no opcode) or a rejected load.
#[derive(Clone, Copy, Debug, PartialEq, Eq, Structural)]
pub enum Chip8Error {
    /// A call was executed with the stack already at its full depth of 16.
    StackOverflow,
    /// A return was executed with no matching call on the stack.
    StackUnderflow,
    /// The fetched instruction word matches no known opcode pattern.
    UnknownOpcode(u16),
    /// The program handed to `load_program` does not fit in memory.
    ProgramTooLarge,
}

/// One decoded instruction. Register indices are nibbles (`< 16`), `u16`
/// payloads are 12-bit addresses, `u8` payloads are byte immediates.
#[derive(Clone, Copy, Debug, PartialEq, Eq, Structural)]
pub enum Instruction {
    /// 00E0: clear the display.
    Cls,
    /// 00EE: return from subroutine.
    Ret,
    /// 1nnn: jump to nnn.
    Jump(u16),
    /// 2nnn: call subroutine at nnn.
    Call(u16),
    /// 3xkk: skip next instruction if register x == kk.
    SkipEqImm(usize, u8),
    /// 4xkk: skip next instruction if register x != kk.
    SkipNeImm(usize, u8),
    /// 5xy0: skip next instruction if register x == register y.
    SkipEqReg(usize, usize),
    /// 6xkk: register x = kk.
    LoadImm(usize, u8),
    /// 7xkk: register x += kk, wrapping, no carry recorded.
    AddImm(usize, u8),
    /// 8xy0: register x = register y.
    MoveReg(usize, usize),
    /// 8xy1: register x |= register y.
    OrReg(usize, usize),
    /// 8xy2: register x &= register y.
    AndReg(usize, usize),
    /// 8xy3: register x ^= register y.
    XorReg(usize, usize),
    /// 8xy4: register x += register y; flag = carry out of 8 bits.
    AddReg(usize, usize),
    /// 8xy5: register x -= register y; flag = 1 iff no borrow.
    SubReg(usize, usize),
    /// 8xy6: register x >>= 1; flag = pre-shift low bit.
    ShrReg(usize),
    /// 8xy7: register x = register y - register x; flag = 1 iff no borrow.
    SubnReg(usize, usize),
    /// 8xyE: register x <<= 1; flag = pre-shift high bit.
    ShlReg(usize),
    /// 9xy0: skip next instruction if register x != register y.
    SkipNeReg(usize, usize),
    /// Annn: index register = nnn.
    LoadIndex(u16),
    /// Bnnn: jump to nnn + register 0.
    JumpPlus(u16),
    /// Cxkk: register x = random byte AND kk.
    RandomAnd(usize, u8),
    /// Dxyn: draw the n-byte sprite at memory[index..] at (reg x, reg y);
    /// flag = collision.
    DrawSprite(usize, usize, usize),
    /// Ex9E: skip next instruction if the key named by register x is down.
    SkipKeyPressed(usize),
    /// ExA1: skip next instruction if the key named by register x is up.
    SkipKeyNotPressed(usize),
    /// Fx07: register x = delay timer.
    ReadDelay(usize),
    /// Fx0A: wait for a key press; register x = that key.
    WaitKey(usize),
    /// Fx15: delay timer = register x.
    SetDelay(usize),
    /// Fx18: sound timer = register x.
    SetSound(usize),
    /// Fx1E: index register += register x, wrapping at 16 bits.
    AddIndex(usize),
    /// Fx29: index register = address of the font glyph for register x.
    LoadFont(usize),
    /// Fx33: decimal digits of register x into memory[index..index+3].
    StoreBcd(usize),
    /// Fx55: store registers 0..=x into memory starting at index.
    StoreRegs(usize),
    /// Fx65: load registers 0..=x from memory starting at index.
    LoadRegs(usize),
    /// An instruction word matching no known opcode pattern.
    Unknown(u16),
}

/// Top nibble of an instruction word: the instruction family.
pub open spec fn nib1(op: u16) -> int {
    op as int / 0x1000
}

/// Second nibble: the `x` register index.
pub open spec fn nib2(op: u16) -> int {
    (op as int / 0x100) % 16
}

/// Third nibble: the `y` register index.
pub open spec fn nib3(op: u16) -> int {
    (op as int / 0x10) % 16
}

/// Bottom nibble: the instruction sub-selector.
pub open spec fn nib4(op: u16) -> int {
    op as int % 16
}

/// Low byte: the 8-bit immediate.
pub open spec fn low_byte(op: u16) -> u8 {
    (op as int % 0x100) as u8
}

/// Low 12 bits: the address immediate.
pub open spec fn addr_of(op: u16) -> u16 {
    (op as int % 0x1000) as u16
}

/// What each instruction word decodes to. This mirrors the opcode table:
/// dispatch is on the top nibble and, for the 0, 5, 8, 9, E and F families,
/// on the low nibble or low byte.
pub open spec fn spec_decode(op: u16) -> Instruction {
    let x = nib2(op) as usize;
    let y = nib3(op) as usize;
    let kk = low_byte(op);
    let nnn = addr_of(op);
    let n = nib4(op) as usize;
    if op == 0x00E0 {
        Instruction::Cls
    } else if op == 0x00EE {
        Instruction::Ret
    } else if nib1(op) == 0x1 {
        Instruction::Jump(nnn)
    } else if nib1(op) == 0x2 {
        Instruction::Call(nnn)
    } else if nib1(op) == 0x3 {
        Instruction::SkipEqImm(x, kk)
    } else if nib1(op) == 0x4 {
        Instruction::SkipNeImm(x, kk)
    } else if nib1(op) == 0x5 && nib4(op) == 0x0 {
        Instruction::SkipEqReg(x, y)
    } else if nib1(op) == 0x6 {
        Instruction::LoadImm(x, kk)
    } else if nib1(op) == 0x7 {
        Instruction::AddImm(x, kk)
    } else if nib1(op) == 0x8 && nib4(op) == 0x0 {
        Instruction::MoveReg(x, y)
    } else if nib1(op) == 0x8 && nib4(op) == 0x1 {
        Instruction::OrReg(x, y)
    } else if nib1(op) == 0x8 && nib4(op) == 0x2 {
        Instruction::AndReg(x, y)
    } else if nib1(op) == 0x8 && nib4(op) == 0x3 {
        Instruction::XorReg(x, y)
    } else if nib1(op) == 0x8 && nib4(op) == 0x4 {
        Instruction::AddReg(x, y)
    } else if nib1(op) == 0x8 && nib4(op) == 0x5 {
        Instruction::SubReg(x, y)
    } else if nib1(op) == 0x8 && nib4(op) == 0x6 {
        Instruction::ShrReg(x)
    } else if nib1(op) == 0x8 && nib4(op) == 0x7 {
        Instruction::SubnReg(x, y)
    } else if nib1(op) == 0x8 && nib4(op) == 0xE {
        Instruction::ShlReg(x)
    } else if nib1(op) == 0x9 && nib4(op) == 0x0 {
        Instruction::SkipNeReg(x, y)
    } else if nib1(op) == 0xA {
        Instruction::LoadIndex(nnn)
    } else if nib1(op) == 0xB {
        Instruction::JumpPlus(nnn)
    } else if nib1(op) == 0xC {
        Instruction::RandomAnd(x, kk)
    } else if nib1(op) == 0xD {
        Instruction::DrawSprite(x, y, n)
    } else if nib1(op) == 0xE && kk == 0x9E {
        Instruction::SkipKeyPressed(x)
    } else if nib1(op) == 0xE && kk == 0xA1 {
        Instruction::SkipKeyNotPressed(x)
    } else if nib1(op) == 0xF && kk == 0x07 {
        Instruction::ReadDelay(x)
    } else if nib1(op) == 0xF && kk == 0x0A {
        Instruction::WaitKey(x)
    } else if nib1(op) == 0xF && kk == 0x15 {
        Instruction::SetDelay(x)
    } else if nib1(op) == 0xF && kk == 0x18 {
        Instruction::SetSound(x)
    } else if nib1(op) == 0xF && kk == 0x1E {
        Instruction::AddIndex(x)
    } else if nib1(op) == 0xF && kk == 0x29 {
        Instruction::LoadFont(x)
    } else if nib1(op) == 0xF && kk == 0x33 {
        Instruction::StoreBcd(x)
    } else if nib1(op) == 0xF && kk == 0x55 {
        Instruction::StoreRegs(x)
    } else if nib1(op) == 0xF && kk == 0x65 {
        Instruction::LoadRegs(x)
    } else {
        Instruction::Unknown(op)
    }
}

/// Every payload a decoder can produce is in range: register indices and
/// sprite heights are nibbles, addresses are 12 bits.
pub open spec fn instr_wf(i: Instruction) -> bool {
    match i {
        Instruction::Cls => true,
        Instruction::Ret => true,
        Instruction::Jump(nnn) => nnn < 4096,
        Instruction::Call(nnn) => nnn < 4096,
        Instruction::SkipEqImm(x, _kk) => x < 16,
        Instruction::SkipNeImm(x, _kk) => x < 16,
        Instruction::SkipEqReg(x, y) => x < 16 && y < 16,
        Instruction::LoadImm(x, _kk) => x < 16,
        Instruction::AddImm(x, _kk) => x < 16,
        Instruction::MoveReg(x, y) => x < 16 && y < 16,
        Instruction::OrReg(x, y) => x < 16 && y < 16,
        Instruction::AndReg(x, y) => x < 16 && y < 16,
        Instruction::XorReg(x, y) => x < 16 && y < 16,
        Instruction::AddReg(x, y) => x < 16 && y < 16,
        Instruction::SubReg(x, y) => x < 16 && y < 16,
        Instruction::ShrReg(x) => x < 16,
        Instruction::SubnReg(x, y) => x < 16 && y < 16,
        Instruction::ShlReg(x) => x < 16,
        Instruction::SkipNeReg(x, y) => x < 16 && y < 16,
        Instruction::LoadIndex(nnn) => nnn < 4096,
        Instruction::JumpPlus(nnn) => nnn < 4096,
        Instruction::RandomAnd(x, _kk) => x < 16,
        Instruction::DrawSprite(x, y, n) => x < 16 && y < 16 && n < 16,
        Instruction::SkipKeyPressed(x) => x < 16,
        Instruction::SkipKeyNotPressed(x) => x < 16,
        Instruction::ReadDelay(x) => x < 16,
        Instruction::WaitKey(x) => x < 16,
        Instruction::SetDelay(x) => x < 16,
        Instruction::SetSound(x) => x < 16,
        Instruction::AddIndex(x) => x < 16,
        Instruction::LoadFont(x) => x < 16,
        Instruction::StoreBcd(x) => x < 16,
        Instruction::StoreRegs(x) => x < 16,
        Instruction::LoadRegs(x) => x < 16,
        Instruction::Unknown(_op) => true,
    }
}

/// Decode one instruction word into its `Instruction`.
pub fn decode(op: u16) -> (r: Instruction)
    ensures
        r == spec_decode(op),
        instr_wf(r),
{
    let x: usize = ((op / 0x100) % 16) as usize;
    let y: usize = ((op / 0x10) % 16) as usize;
    let kk: u8 = (op % 0x100) as u8;
    let nnn: u16 = op % 0x1000;
    let n: usize = (op % 16) as usize;
    let family: u16 = op / 0x1000;
    if op == 0x00E0 {
        Instruction::Cls
    } else if op == 0x00EE {
        Instruction::Ret
    } else if family == 0x1 {
        Instruction::Jump(nnn)
    } else if family == 0x2 {
        Instruction::Call(nnn)
    } else if family == 0x3 {
        Instruction::SkipEqImm(x, kk)
    } else if family == 0x4 {
        Instruction::SkipNeImm(x, kk)
    } else if family == 0x5 && op % 16 == 0x0 {
        Instruction::SkipEqReg(x, y)
    } else if family == 0x6 {
        Instruction::LoadImm(x, kk)
    } else if family == 0x7 {
        Instruction::AddImm(x, kk)
    } else if family == 0x8 && op % 16 == 0x0 {
        Instruction::MoveReg(x, y)
    } else if family == 0x8 && op % 16 == 0x1 {
        Instruction::OrReg(x, y)
    } else if family == 0x8 && op % 16 == 0x2 {
        Instruction::AndReg(x, y)
    } else if family == 0x8 && op % 16 == 0x3 {
        Instruction::XorReg(x, y)
    } else if family == 0x8 && op % 16 == 0x4 {
        Instruction::AddReg(x, y)
    } else if family == 0x8 && op % 16 == 0x5 {
        Instruction::SubReg(x, y)
    } else if family == 0x8 && op % 16 == 0x6 {
        Instruction::ShrReg(x)
    } else if family == 0x8 && op % 16 == 0x7 {
        Instruction::SubnReg(x, y)
    } else if family == 0x8 && op % 16 == 0xE {
        Instruction::ShlReg(x)
    } else if family == 0x9 && op % 16 == 0x0 {
        Instruction::SkipNeReg(x, y)
    } else if family == 0xA {
        Instruction::LoadIndex(nnn)
    } else if family == 0xB {
        Instruction::JumpPlus(nnn)
    } else if family == 0xC {
        Instruction::RandomAnd(x, kk)
    } else if family == 0xD {
        Instruction::DrawSprite(x, y, n)
    } else if family == 0xE && kk == 0x9E {
        Instruction::SkipKeyPressed(x)
    } else if family == 0xE && kk == 0xA1 {
        Instruction::SkipKeyNotPressed(x)
    } else if family == 0xF && kk == 0x07 {
        Instruction::ReadDelay(x)
    } else if family == 0xF && kk == 0x0A {
        Instruction::WaitKey(x)
    } else if family == 0xF && kk == 0x15 {
        Instruction::SetDelay(x)
    } else if family == 0xF && kk == 0x18 {
        Instruction::SetSound(x)
    } else if family == 0xF && kk == 0x1E {
        Instruction::AddIndex(x)
    } else if family == 0xF && kk == 0x29 {
        Instruction::LoadFont(x)
    } else if family == 0xF && kk == 0x33 {
        Instruction::StoreBcd(x)
    } else if family == 0xF && kk == 0x55 {
        Instruction::StoreRegs(x)
    } else if family == 0xF && kk == 0x65 {
        Instruction::LoadRegs(x)
    } else {
        Instruction::Unknown(op)
    }
}

/// The mathematical state of the interpreter: every contract on `Cpu`
/// speaks of this model.
#[verifier::ext_equal]
pub ghost struct CpuModel {
    pub memory: Seq<u8>,
    pub registers: Seq<u8>,
    pub stack: Seq<u16>,
    pub stack_pointer: int,
    pub delay_timer: u8,
    pub sound_timer: u8,
    pub index_register: int,
    pub program_counter: int,
    pub pixels: Seq<bool>,
    pub keys: Seq<bool>,
}

impl CpuModel {
    /// The structural invariant: fixed sizes, the stack pointer at most 16,
    /// the program counter and index register within their registers' width.
    pub open spec fn wf(self) -> bool {
        &&& self.memory.len() == 4096
        &&& self.registers.len() == 16
        &&& self.stack.len() == 16
        &&& 0 <= self.stack_pointer <= 16
        &&& 0 <= self.program_counter < 4096
        &&& 0 <= self.index_register < 65536
        &&& self.pixels.len() == 2048
        &&& self.keys.len() == 16
    }
}

/// The 16 built-in 5-byte font glyphs for digits 0 through F, in order,
/// as they sit at the bottom of memory.
pub open spec fn font_seq() -> Seq<u8> {
    seq![
        0xF0u8, 0x90, 0x90, 0x90, 0xF0,
        0x20, 0x60, 0x20, 0x20, 0x70,
        0xF0, 0x10, 0xF0, 0x80, 0xF0,
        0xF0, 0x10, 0xF0, 0x10, 0xF0,
        0x90, 0x90, 0xF0, 0x10, 0x10,
        0xF0, 0x80, 0xF0, 0x10, 0xF0,
        0xF0, 0x80, 0xF0, 0x90, 0xF0,
        0xF0, 0x10, 0x20, 0x40, 0x40,
        0xF0, 0x90, 0xF0, 0x90, 0xF0,
        0xF0, 0x90, 0xF0, 0x10, 0xF0,
        0xF0, 0x90, 0xF0, 0x90, 0x90,
        0xE0, 0x90, 0xE0, 0x90, 0xE0,
        0xF0, 0x80, 0x80, 0x80, 0xF0,
        0xE0, 0x90, 0x90, 0x90, 0xE0,
        0xF0, 0x80, 0xF0, 0x80, 0xF0,
        0xF0, 0x80, 0xF0, 0x80, 0x80,
    ]
}

/// Memory at construction: the font glyphs in the reserved low region,
/// every other byte zero.
pub open spec fn initial_memory() -> Seq<u8> {
    font_seq() + Seq::new(4016, |i: int| 0u8)
}

/// The whole interpreter at construction: zeroed state, the program counter
/// at `PROGRAM_START`, the font pre-loaded.
pub open spec fn initial_model() -> CpuModel {
    CpuModel {
        memory: initial_memory(),
        registers: Seq::new(16, |i: int| 0u8),
        stack: Seq::new(16, |i: int| 0u16),
        stack_pointer: 0,
        delay_timer: 0,
        sound_timer: 0,
        index_register: 0,
        program_counter: 0x200,
        pixels: Seq::new(2048, |i: int| false),
        keys: Seq::new(16, |i: int| false),
    }
}

/// The big-endian instruction word at the program counter.
pub open spec fn spec_fetch(m: CpuModel) -> u16 {
    (m.memory[m.program_counter] * 256 + m.memory[(m.program_counter + 1) % 4096]) as u16
}

/// A countdown timer one tick later: decremented toward zero, never below.
pub open spec fn dec_timer(t: u8) -> u8 {
    if t > 0 {
        (t - 1) as u8
    } else {
        0
    }
}

/// Memory after storing registers `0..j` at consecutive addresses from
/// `index`, each address masked to 12 bits.
pub open spec fn store_regs(memory: Seq<u8>, registers: Seq<u8>, index: int, j: int) -> Seq<u8>
    decreases j,
{
    if j <= 0 {
        memory
    } else {
        store_regs(memory, registers, index, j - 1).update(
            (index + j - 1) % 4096,
            registers[j - 1],
        )
    }
}

/// Registers after loading `0..j` of them from consecutive addresses from
/// `index`, each address masked to 12 bits.
pub open spec fn load_regs(registers: Seq<u8>, memory: Seq<u8>, index: int, j: int) -> Seq<u8>
    decreases j,
{
    if j <= 0 {
        registers
    } else {
        load_regs(registers, memory, index, j - 1).update(j - 1, memory[(index + j - 1) % 4096])
    }
}

/// The `n`-byte sprite held at `memory[index..]`, addresses masked to 12
/// bits.
pub open spec fn sprite_at(memory: Seq<u8>, index: int, n: int) -> Seq<u8> {
    Seq::new(n as nat, |i: int| memory[(index + i) % 4096])
}

/// What one instruction does to the whole machine state, or which defined
/// failure it raises. This is the authoritative opcode table. The program
/// counter has already conceptually advanced past the instruction: every
/// arm assigns it, to `next` for straight-line opcodes, further for skips,
/// to a target for jumps, and back to the instruction itself for an
/// unsatisfied key-wait. The flag register 0xF is written before the `x`
/// register, so a result targeted at 0xF overwrites the flag. On `Err` no
/// state changes at all.
pub open spec fn spec_execute(pre: CpuModel, instr: Instruction, rand: u8) -> Result<
    CpuModel,
    Chip8Error,
> {
    let next = (pre.program_counter + 2) % 4096;
    let skip = (pre.program_counter + 4) % 4096;
    match instr {
        Instruction::Cls => Ok(
            CpuModel { pixels: Seq::new(2048, |i: int| false), program_counter: next, ..pre },
        ),
        Instruction::Ret => if pre.stack_pointer == 0 {
            Err(Chip8Error::StackUnderflow)
        } else {
            Ok(
                CpuModel {
                    stack_pointer: pre.stack_pointer - 1,
                    program_counter: pre.stack[pre.stack_pointer - 1] as int % 4096,
                    ..pre
                },
            )
        },
        Instruction::Jump(nnn) => Ok(
            CpuModel { program_counter: nnn as int % 4096, ..pre },
        ),
        Instruction::Call(nnn) => if pre.stack_pointer == 16 {
            Err(Chip8Error::StackOverflow)
        } else {
            Ok(
                CpuModel {
                    stack: pre.stack.update(pre.stack_pointer, next as u16),
                    stack_pointer: pre.stack_pointer + 1,
                    program_counter: nnn as int % 4096,
                    ..pre
                },
            )
        },
        Instruction::SkipEqImm(x, kk) => Ok(
            CpuModel {
                program_counter: if pre.registers[x as int] == kk {
                    skip
                } else {
                    next
                },
                ..pre
            },
        ),
        Instruction::SkipNeImm(x, kk) => Ok(
            CpuModel {
                program_counter: if pre.registers[x as int] != kk {
                    skip
                } else {
                    next
                },
                ..pre
            },
        ),
        Instruction::SkipEqReg(x, y) => Ok(
            CpuModel {
                program_counter: if pre.registers[x as int] == pre.registers[y as int] {
                    skip
                } else {
                    next
                },
                ..pre
            },
        ),
        Instruction::LoadImm(x, kk) => Ok(
            CpuModel {
                registers: pre.registers.update(x as int, kk),
                program_counter: next,
                ..pre
            },
        ),
        Instruction::AddImm(x, kk) => Ok(
            CpuModel {
                registers: pre.registers.update(
                    x as int,
                    ((pre.registers[x as int] + kk) % 256) as u8,
                ),
                program_counter: next,
                ..pre
            },
        ),
        Instruction::MoveReg(x, y) => Ok(
            CpuModel {
                registers: pre.registers.update(x as int, pre.registers[y as int]),
                program_counter: next,
                ..pre
            },
        ),
        Instruction::OrReg(x, y) => Ok(
            CpuModel {
                registers: pre.registers.update(
                    x as int,
                    pre.registers[x as int] | pre.registers[y as int],
                ),
                program_counter: next,
                ..pre
            },
        ),
        Instruction::AndReg(x, y) => Ok(
            CpuModel {
                registers: pre.registers.update(
                    x as int,
                    pre.registers[x as int] & pre.registers[y as int],
                ),
                program_counter: next,
                ..pre
            },
        ),
        Instruction::XorReg(x, y) => Ok(
            CpuModel {
                registers: pre.registers.update(
                    x as int,
                    pre.registers[x as int] ^ pre.registers[y as int],
                ),
                program_counter: next,
                ..pre
            },
        ),
        Instruction::AddReg(x, y) => Ok(
            CpuModel {
                registers: pre.registers.update(
                    15,
                    if pre.registers[x as int] + pre.registers[y as int] >= 256 {
                        1u8
                    } else {
                        0u8
                    },
                ).update(
                    x as int,
                    ((pre.registers[x as int] + pre.registers[y as int]) % 256) as u8,
                ),
                program_counter: next,
                ..pre
            },
        ),
        Instruction::SubReg(x, y) => Ok(
            CpuModel {
                registers: pre.registers.update(
                    15,
                    if pre.registers[x as int] >= pre.registers[y as int] {
                        1u8
                    } else {
                        0u8
                    },
                ).update(
                    x as int,
                    ((pre.registers[x as int] - pre.registers[y as int] + 256) % 256) as u8,
                ),
                program_counter: next,
                ..pre
            },
        ),
        Instruction::ShrReg(x) => Ok(
            CpuModel {
                registers: pre.registers.update(15, (pre.registers[x as int] % 2) as u8).update(
                    x as int,
                    (pre.registers[x as int] / 2) as u8,
                ),
                program_counter: next,
                ..pre
            },
        ),
        Instruction::SubnReg(x, y) => Ok(
            CpuModel {
                registers: pre.registers.update(
                    15,
                    if pre.registers[y as int] >= pre.registers[x as int] {
                        1u8
                    } else {
                        0u8
                    },
                ).update(
                    x as int,
                    ((pre.registers[y as int] - pre.registers[x as int] + 256) % 256) as u8,
                ),
                program_counter: next,
                ..pre
            },
        ),
        Instruction::ShlReg(x) => Ok(
            CpuModel {
                registers: pre.registers.update(15, (pre.registers[x as int] / 128) as u8).update(
                    x as int,
                    ((pre.registers[x as int] * 2) % 256) as u8,
                ),
                program_counter: next,
                ..pre
            },
        ),
        Instruction::SkipNeReg(x, y) => Ok(
            CpuModel {
                program_counter: if pre.registers[x as int] != pre.registers[y as int] {
                    skip
                } else {
                    next
                },
                ..pre
            },
        ),
        Instruction::LoadIndex(nnn) => Ok(
            CpuModel { index_register: nnn as int % 4096, program_counter: next, ..pre },
        ),
        Instruction::JumpPlus(nnn) => Ok(
            CpuModel { program_counter: (nnn + pre.registers[0]) % 4096, ..pre },
        ),
        Instruction::RandomAnd(x, kk) => Ok(
            CpuModel {
                registers: pre.registers.update(x as int, rand & kk),
                program_counter: next,
                ..pre
            },
        ),
        Instruction::DrawSprite(x, y, n) => {
            let sprite = sprite_at(pre.memory, pre.index_register, n as int);
            let sx = pre.registers[x as int] as int;
            let sy = pre.registers[y as int] as int;
            let collided = crate::display::draw_collision(pre.pixels, sx, sy, sprite);
            Ok(
                CpuModel {
                    pixels: crate::display::draw_result(pre.pixels, sx, sy, sprite),
                    registers: pre.registers.update(
                        15,
                        if collided {
                            1u8
                        } else {
                            0u8
                        },
                    ),
                    program_counter: next,
                    ..pre
                },
            )
        },
        Instruction::SkipKeyPressed(x) => Ok(
            CpuModel {
                program_counter: if pre.keys[pre.registers[x as int] as int % 16] {
                    skip
                } else {
                    next
                },
                ..pre
            },
        ),
        Instruction::SkipKeyNotPressed(x) => Ok(
            CpuModel {
                program_counter: if !pre.keys[pre.registers[x as int] as int % 16] {
                    skip
                } else {
                    next
                },
                ..pre
            },
        ),
        Instruction::ReadDelay(x) => Ok(
            CpuModel {
                registers: pre.registers.update(x as int, pre.delay_timer),
                program_counter: next,
                ..pre
            },
        ),
        Instruction::WaitKey(x) => if crate::keyboard::has_pressed(pre.keys) {
            Ok(
                CpuModel {
                    registers: pre.registers.update(
                        x as int,
                        crate::keyboard::first_pressed(pre.keys) as u8,
                    ),
                    program_counter: next,
                    ..pre
                },
            )
        } else {
            Ok(pre)
        },
        Instruction::SetDelay(x) => Ok(
            CpuModel {
                delay_timer: pre.registers[x as int],
                program_counter: next,
                ..pre
            },
        ),
        Instruction::SetSound(x) => Ok(
            CpuModel {
                sound_timer: pre.registers[x as int],
                program_counter: next,
                ..pre
            },
        ),
        Instruction::AddIndex(x) => Ok(
            CpuModel {
                index_register: (pre.index_register + pre.registers[x as int]) % 65536,
                program_counter: next,
                ..pre
            },
        ),
        Instruction::LoadFont(x) => Ok(
            CpuModel {
                index_register: 5 * (pre.registers[x as int] as int % 16),
                program_counter: next,
                ..pre
            },
        ),
        Instruction::StoreBcd(x) => Ok(
            CpuModel {
                memory: pre.memory.update(
                    pre.index_register % 4096,
                    (pre.registers[x as int] / 100) as u8,
                ).update(
                    (pre.index_register + 1) % 4096,
                    ((pre.registers[x as int] / 10) % 10) as u8,
                ).update((pre.index_register + 2) % 4096, (pre.registers[x as int] % 10) as u8),
                program_counter: next,
                ..pre
            },
        ),
        Instruction::StoreRegs(x) => Ok(
            CpuModel {
                memory: store_regs(pre.memory, pre.registers, pre.index_register, x as int + 1),
                program_counter: next,
                ..pre
            },
        ),
        Instruction::LoadRegs(x) => Ok(
            CpuModel {
                registers: load_regs(pre.registers, pre.memory, pre.index_register, x as int + 1),
                program_counter: next,
                ..pre
            },
        ),
        Instruction::Unknown(op) => Err(Chip8Error::UnknownOpcode(op)),
    }
}

/// `store_regs` never changes how much memory there is.
pub proof fn lemma_store_regs_len(memory: Seq<u8>, registers: Seq<u8>, index: int, j: int)
    requires
        memory.len() == 4096,
        index >= 0,
    ensures
        store_regs(memory, registers, index, j).len() == memory.len(),
    decreases j,
{
    if j > 0 {
        lemma_store_regs_len(memory, registers, index, j - 1);
    }
}

/// `load_regs` never changes how many registers there are.
pub proof fn lemma_load_regs_len(registers: Seq<u8>, memory: Seq<u8>, index: int, j: int)
    requires
        j <= registers.len(),
    ensures
        load_regs(registers, memory, index, j).len() == registers.len(),
    decreases j,
{
    if j > 0 {
        lemma_load_regs_len(registers, memory, index, j - 1);
    }
}

/// Executing any well-formed instruction on a well-formed machine either
/// fails cleanly or yields a well-formed machine.
pub proof fn lemma_execute_preserves_wf(pre: CpuModel, instr: Instruction, rand: u8)
    requires
        pre.wf(),
        instr_wf(instr),
    ensures
        spec_execute(pre, instr, rand) matches Ok(post) ==> post.wf(),
{
    match instr {
        Instruction::StoreRegs(x) => {
            lemma_store_regs_len(pre.memory, pre.registers, pre.index_register, x as int + 1);
        },
        Instruction::LoadRegs(x) => {
            lemma_load_regs_len(pre.registers, pre.memory, pre.index_register, x as int + 1);
        },
        Instruction::WaitKey(x) => {
            if crate::keyboard::has_pressed(pre.keys) {
                crate::keyboard::lemma_first_pressed(pre.keys);
            }
        },
        _ => {},
    }
}

/// The interpreter: memory, registers, stack, timers, index register,
/// program counter, the display it owns, and the key state bank the
/// external driver updates.
pub struct Cpu {
    pub memory: Vec<u8>,
    pub registers: Vec<u8>,
    pub stack: Vec<u16>,
    pub stack_pointer: usize,
    pub delay_timer: u8,
    pub sound_timer: u8,
    pub index_register: u16,
    pub program_counter: u16,
    pub display: Display,
    pub keyboard: Keyboard,
}

impl View for Cpu {
    type V = CpuModel;

    open spec fn view(&self) -> CpuModel {
        CpuModel {
            memory: self.memory@,
            registers: self.registers@,
            stack: self.stack@,
            stack_pointer: self.stack_pointer as int,
            delay_timer: self.delay_timer,
            sound_timer: self.sound_timer,
            index_register: self.index_register as int,
            program_counter: self.program_counter as int,
            pixels: self.display@,
            keys: self.keyboard@,
        }
    }
}

/// The font glyph bytes as a vector, for loading into memory.
fn font_bytes() -> (v: Vec<u8>)
    ensures
        v@ == font_seq(),
{
    let v: Vec<u8> = vec![
        0xF0, 0x90, 0x90, 0x90, 0xF0,
        0x20, 0x60, 0x20, 0x20, 0x70,
        0xF0, 0x10, 0xF0, 0x80, 0xF0,
        0xF0, 0x10, 0xF0, 0x10, 0xF0,
        0x90, 0x90, 0xF0, 0x10, 0x10,
        0xF0, 0x80, 0xF0, 0x10, 0xF0,
        0xF0, 0x80, 0xF0, 0x90, 0xF0,
        0xF0, 0x10, 0x20, 0x40, 0x40,
        0xF0, 0x90, 0xF0, 0x90, 0xF0,
        0xF0, 0x90, 0xF0, 0x10, 0xF0,
        0xF0, 0x90, 0xF0, 0x90, 0x90,
        0xE0, 0x90, 0xE0, 0x90, 0xE0,
        0xF0, 0x80, 0x80, 0x80, 0xF0,
        0xE0, 0x90, 0x90, 0x90, 0xE0,
        0xF0, 0x80, 0xF0, 0x80, 0xF0,
        0xF0, 0x80, 0xF0, 0x80, 0x80,
    ];
    proof {
        assert(v@ =~= font_seq());
    }
    v
}

impl Cpu {
    /// The structural invariant of the whole interpreter.
    pub open spec fn wf(&self) -> bool {
        self@.wf()
    }

    /// A fresh interpreter: zeroed state, the program counter at
    /// `PROGRAM_START`, the font glyphs pre-loaded into low memory.
    pub fn new() -> (c: Cpu)
        ensures
            c.wf(),
            c@ == initial_model(),
    {
        let mut memory: Vec<u8> = font_bytes();
        let mut i: usize = memory.len();
        while i < 4096
            invariant
                i == memory@.len(),
                80 <= i <= 4096,
                memory@.subrange(0, 80) == font_seq(),
                forall|q: int| 80 <= q < i ==> memory@[q] == 0u8,
            decreases 4096 - i,
        {
            memory.push(0);
            proof {
                assert(memory@.subrange(0, 80) =~= font_seq());
            }
            i = i + 1;
        }
        let mut registers: Vec<u8> = Vec::new();
        let mut j: usize = 0;
        while j < 16
            invariant
                j == registers@.len(),
                j <= 16,
                forall|q: int| 0 <= q < j ==> registers@[q] == 0u8,
            decreases 16 - j,
        {
            registers.push(0);
            j = j + 1;
        }
        let mut stack: Vec<u16> = Vec::new();
        let mut k: usize = 0;
        while k < 16
            invariant
                k == stack@.len(),
                k <= 16,
                forall|q: int| 0 <= q < k ==> stack@[q] == 0u16,
            decreases 16 - k,
        {
            stack.push(0);
            k = k + 1;
        }
        let c = Cpu {
            memory,
            registers,
            stack,
            stack_pointer: 0,
            delay_timer: 0,
            sound_timer: 0,
            index_register: 0,
            program_counter: PROGRAM_START,
            display: Display::new(),
            keyboard: Keyboard::new(),
        };
        proof {
            assert(c@.memory =~= initial_memory());
            assert(c@.registers =~= Seq::new(16, |i: int| 0u8));
            assert(c@.stack =~= Seq::new(16, |i: int| 0u16));
            assert(c@.pixels =~= Seq::new(2048, |i: int| false));
            assert(c@.keys =~= Seq::new(16, |i: int| false));
            assert(c@ =~= initial_model());
        }
        c
    }

    /// Read the two memory bytes at the program counter as one big-endian
    /// instruction word.
    pub fn read_opcode(&self) -> (op: u16)
        requires
            self.wf(),
        ensures
            op == spec_fetch(self@),
    {
        let pc: usize = self.program_counter as usize;
        let hi: u8 = self.memory[pc];
        let lo: u8 = self.memory[(pc + 1) % 4096];
        (hi as u16) * 256 + (lo as u16)
    }

    /// Decode and execute one instruction word. `rand` is the random byte
    /// the Cxkk opcode consumes; the caller (the outer driver) supplies it.
    /// On a defined failure the machine state is left exactly as it was.
    #[verifier::rlimit(80)]
    pub fn execute_opcode(&mut self, opcode: u16, rand: u8) -> (r: Result<(), Chip8Error>)
        requires
            old(self).wf(),
        ensures
            final(self).wf(),
            match spec_execute(old(self)@, spec_decode(opcode), rand) {
                Ok(post) => r is Ok && final(self)@ == post,
                Err(e) => r is Err && r->Err_0 == e && final(self)@ == old(self)@,
            },
    {
        let ghost pre = self@;
        let instr = decode(opcode);
        proof {
            lemma_execute_preserves_wf(pre, instr, rand);
        }
        let next_pc: u16 = (self.program_counter + 2) % 4096;
        let skip_pc: u16 = (self.program_counter + 4) % 4096;
        match instr {
            Instruction::Cls => {
                self.display.cls();
                self.program_counter = next_pc;
                proof {
                    assert(self@.pixels =~= Seq::new(2048, |i: int| false));
                    assert(self@ =~= spec_execute(pre, instr, rand)->Ok_0);
                }
                Ok(())
            },
            Instruction::Ret => {
                if self.stack_pointer == 0 {
                    Err(Chip8Error::StackUnderflow)
                } else {
                    self.stack_pointer = self.stack_pointer - 1;
                    self.program_counter = self.stack[self.stack_pointer] % 4096;
                    proof {
                        assert(self@ =~= spec_execute(pre, instr, rand)->Ok_0);
                    }
                    Ok(())
                }
            },
            Instruction::Jump(nnn) => {
                self.program_counter = nnn % 4096;
                proof {
                    assert(self@ =~= spec_execute(pre, instr, rand)->Ok_0);
                }
                Ok(())
            },
            Instruction::Call(nnn) => {
                if self.stack_pointer == 16 {
                    Err(Chip8Error::StackOverflow)
                } else {
                    self.stack.set(self.stack_pointer, next_pc);
                    self.stack_pointer = self.stack_pointer + 1;
                    self.program_counter = nnn % 4096;
                    proof {
                        assert(self@ =~= spec_execute(pre, instr, rand)->Ok_0);
                    }
                    Ok(())
                }
            },
            Instruction::SkipEqImm(x, kk) => {
                self.program_counter = if self.registers[x] == kk {
                    skip_pc
                } else {
                    next_pc
                };
                proof {
                    assert(self@ =~= spec_execute(pre, instr, rand)->Ok_0);
                }
                Ok(())
            },
            Instruction::SkipNeImm(x, kk) => {
                self.program_counter = if self.registers[x] != kk {
                    skip_pc
                } else {
                    next_pc
                };
                proof {
                    assert(self@ =~= spec_execute(pre, instr, rand)->Ok_0);
                }
                Ok(())
            },
            Instruction::SkipEqReg(x, y) => {
                self.program_counter = if self.registers[x] == self.registers[y] {
                    skip_pc
                } else {
                    next_pc
                };
                proof {
                    assert(self@ =~= spec_execute(pre, instr, rand)->Ok_0);
                }
                Ok(())
            },
            Instruction::LoadImm(x, kk) => {
                self.registers.set(x, kk);
                self.program_counter = next_pc;
                proof {
                    assert(self@ =~= spec_execute(pre, instr, rand)->Ok_0);
                }
                Ok(())
            },
            Instruction::AddImm(x, kk) => {
                let a: u8 = self.registers[x];
                self.registers.set(x, ((a as u16 + kk as u16) % 256) as u8);
                self.program_counter = next_pc;
                proof {
                    assert(self@ =~= spec_execute(pre, instr, rand)->Ok_0);
                }
                Ok(())
            },
            Instruction::MoveReg(x, y) => {
                let b: u8 = self.registers[y];
                self.registers.set(x, b);
                self.program_counter = next_pc;
                proof {
                    assert(self@ =~= spec_execute(pre, instr, rand)->Ok_0);
                }
                Ok(())
            },
            Instruction::OrReg(x, y) => {
                let a: u8 = self.registers[x];
                let b: u8 = self.registers[y];
                self.registers.set(x, a | b);
                self.program_counter = next_pc;
                proof {
                    assert(self@ =~= spec_execute(pre, instr, rand)->Ok_0);
                }
                Ok(())
            },
            Instruction::AndReg(x, y) => {
                let a: u8 = self.registers[x];
                let b: u8 = self.registers[y];
                self.registers.set(x, a & b);
                self.program_counter = next_pc;
                proof {
                    assert(self@ =~= spec_execute(pre, instr, rand)->Ok_0);
                }
                Ok(())
            },
            Instruction::XorReg(x, y) => {
                let a: u8 = self.registers[x];
                let b: u8 = self.registers[y];
                self.registers.set(x, a ^ b);
                self.program_counter = next_pc;
                proof {
                    assert(self@ =~= spec_execute(pre, instr, rand)->Ok_0);
                }
                Ok(())
            },
            Instruction::AddReg(x, y) => {
                let a: u8 = self.registers[x];
                let b: u8 = self.registers[y];
                let sum: u16 = a as u16 + b as u16;
                let flag: u8 = if sum >= 256 {
                    1
                } else {
                    0
                };
                self.registers.set(15, flag);
                self.registers.set(x, (sum % 256) as u8);
                self.program_counter = next_pc;
                proof {
                    assert(self@ =~= spec_execute(pre, instr, rand)->Ok_0);
                }
                Ok(())
            },
            Instruction::SubReg(x, y) => {
                let a: u8 = self.registers[x];
                let b: u8 = self.registers[y];
                let flag: u8 = if a >= b {
                    1
                } else {
                    0
                };
                self.registers.set(15, flag);
                self.registers.set(x, ((a as u16 + 256 - b as u16) % 256) as u8);
                self.program_counter = next_pc;
                proof {
                    assert(self@ =~= spec_execute(pre, instr, rand)->Ok_0);
                }
                Ok(())
            },
            Instruction::ShrReg(x) => {
                let a: u8 = self.registers[x];
                self.registers.set(15, a % 2);
                self.registers.set(x, a / 2);
                self.program_counter = next_pc;
                proof {
                    assert(self@ =~= spec_execute(pre, instr, rand)->Ok_0);
                }
                Ok(())
            },
            Instruction::SubnReg(x, y) => {
                let a: u8 = self.registers[x];
                let b: u8 = self.registers[y];
                let flag: u8 = if b >= a {
                    1
                } else {
                    0
                };
                self.registers.set(15, flag);
                self.registers.set(x, ((b as u16 + 256 - a as u16) % 256) as u8);
                self.program_counter = next_pc;
                proof {
                    assert(self@ =~= spec_execute(pre, instr, rand)->Ok_0);
                }
                Ok(())
            },
            Instruction::ShlReg(x) => {
                let a: u8 = self.registers[x];
                self.registers.set(15, a / 128);
                self.registers.set(x, ((a as u16 * 2) % 256) as u8);
                self.program_counter = next_pc;
                proof {
                    assert(self@ =~= spec_execute(pre, instr, rand)->Ok_0);
                }
                Ok(())
            },
            Instruction::SkipNeReg(x, y) => {
                self.program_counter = if self.registers[x] != self.registers[y] {
                    skip_pc
                } else {
                    next_pc
                };
                proof {
                    assert(self@ =~= spec_execute(pre, instr, rand)->Ok_0);
                }
                Ok(())
            },
            Instruction::LoadIndex(nnn) => {
                self.index_register = nnn % 4096;
                self.program_counter = next_pc;
                proof {
                    assert(self@ =~= spec_execute(pre, instr, rand)->Ok_0);
                }
                Ok(())
            },
            Instruction::JumpPlus(nnn) => {
                self.program_counter = (nnn + self.registers[0] as u16) % 4096;
                proof {
                    assert(self@ =~= spec_execute(pre, instr, rand)->Ok_0);
                }
                Ok(())
            },
            Instruction::RandomAnd(x, kk) => {
                self.registers.set(x, rand & kk);
                self.program_counter = next_pc;
                proof {
                    assert(self@ =~= spec_execute(pre, instr, rand)->Ok_0);
                }
                Ok(())
            },
            Instruction::DrawSprite(x, y, n) => {
                let sx: u8 = self.registers[x];
                let sy: u8 = self.registers[y];
                let mut sprite: Vec<u8> = Vec::new();
                let mut i: usize = 0;
                while i < n
                    invariant
                        self@ == pre,
                        pre.wf(),
                        n < 16,
                        i <= n,
                        sprite@.len() == i,
                        forall|q: int|
                            0 <= q < i ==> sprite@[q] == pre.memory[(pre.index_register + q)
                                % 4096],
                    decreases n - i,
                {
                    let b: u8 = self.memory[(self.index_register as usize + i) % 4096];
                    sprite.push(b);
                    i = i + 1;
                }
                proof {
                    assert(sprite@ =~= sprite_at(pre.memory, pre.index_register, n as int));
                }
                let collided: bool = self.display.draw(sx as usize, sy as usize,
                    sprite.as_slice());
                let flag: u8 = if collided {
                    1
                } else {
                    0
                };
                self.registers.set(15, flag);
                self.program_counter = next_pc;
                proof {
                    assert(self@ =~= spec_execute(pre, instr, rand)->Ok_0);
                }
                Ok(())
            },
            Instruction::SkipKeyPressed(x) => {
                let key: usize = (self.registers[x] % 16) as usize;
                let down: bool = self.keyboard.is_pressed(key);
                self.program_counter = if down {
                    skip_pc
                } else {
                    next_pc
                };
                proof {
                    assert(self@ =~= spec_execute(pre, instr, rand)->Ok_0);
                }
                Ok(())
            },
            Instruction::SkipKeyNotPressed(x) => {
                let key: usize = (self.registers[x] % 16) as usize;
                let down: bool = self.keyboard.is_pressed(key);
                self.program_counter = if !down {
                    skip_pc
                } else {
                    next_pc
                };
                proof {
                    assert(self@ =~= spec_execute(pre, instr, rand)->Ok_0);
                }
                Ok(())
            },
            Instruction::ReadDelay(x) => {
                let t: u8 = self.delay_timer;
                self.registers.set(x, t);
                self.program_counter = next_pc;
                proof {
                    assert(self@ =~= spec_execute(pre, instr, rand)->Ok_0);
                }
                Ok(())
            },
            Instruction::WaitKey(x) => {
                match self.keyboard.first_pressed() {
                    Some(k) => {
                        proof {
                            assert(crate::keyboard::has_pressed(pre.keys));
                        }
                        self.registers.set(x, k);
                        self.program_counter = next_pc;
                    },
                    None => {},
                }
                proof {
                    assert(self@ =~= spec_execute(pre, instr, rand)->Ok_0);
                }
                Ok(())
            },
            Instruction::SetDelay(x) => {
                self.delay_timer = self.registers[x];
                self.program_counter = next_pc;
                proof {
                    assert(self@ =~= spec_execute(pre, instr, rand)->Ok_0);
                }
                Ok(())
            },
            Instruction::SetSound(x) => {
                self.sound_timer = self.registers[x];
                self.program_counter = next_pc;
                proof {
                    assert(self@ =~= spec_execute(pre, instr, rand)->Ok_0);
                }
                Ok(())
            },
            Instruction::AddIndex(x) => {
                let v: u8 = self.registers[x];
                self.index_register = ((self.index_register as u32 + v as u32) % 65536) as u16;
                self.program_counter = next_pc;
                proof {
                    assert(self@ =~= spec_execute(pre, instr, rand)->Ok_0);
                }
                Ok(())
            },
            Instruction::LoadFont(x) => {
                let d: u8 = self.registers[x] % 16;
                self.index_register = 5 * (d as u16);
                self.program_counter = next_pc;
                proof {
                    assert(self@ =~= spec_execute(pre, instr, rand)->Ok_0);
                }
                Ok(())
            },
            Instruction::StoreBcd(x) => {
                let v: u8 = self.registers[x];
                let base: usize = self.index_register as usize;
                self.memory.set(base % 4096, v / 100);
                self.memory.set((base + 1) % 4096, (v / 10) % 10);
                self.memory.set((base + 2) % 4096, v % 10);
                self.program_counter = next_pc;
                proof {
                    assert(self@ =~= spec_execute(pre, instr, rand)->Ok_0);
                }
                Ok(())
            },
            Instruction::StoreRegs(x) => {
                let mut j: usize = 0;
                while j <= x
                    invariant
                        pre.wf(),
                        x < 16,
                        j <= x + 1,
                        self@.memory == store_regs(
                            pre.memory,
                            pre.registers,
                            pre.index_register,
                            j as int,
                        ),
                        self@.memory.len() == 4096,
                        self@.registers == pre.registers,
                        self@.stack == pre.stack,
                        self@.stack_pointer == pre.stack_pointer,
                        self@.delay_timer == pre.delay_timer,
                        self@.sound_timer == pre.sound_timer,
                        self@.index_register == pre.index_register,
                        self@.program_counter == pre.program_counter,
                        self@.pixels == pre.pixels,
                        self@.keys == pre.keys,
                    decreases x + 1 - j,
                {
                    let b: u8 = self.registers[j];
                    self.memory.set((self.index_register as usize + j) % 4096, b);
                    j = j + 1;
                }
                self.program_counter = next_pc;
                proof {
                    assert(self@ =~= spec_execute(pre, instr, rand)->Ok_0);
                }
                Ok(())
            },
            Instruction::LoadRegs(x) => {
                let mut j: usize = 0;
                while j <= x
                    invariant
                        pre.wf(),
                        x < 16,
                        j <= x + 1,
                        self@.registers == load_regs(
                            pre.registers,
                            pre.memory,
                            pre.index_register,
                            j as int,
                        ),
                        self@.registers.len() == 16,
                        self@.memory == pre.memory,
                        self@.stack == pre.stack,
                        self@.stack_pointer == pre.stack_pointer,
                        self@.delay_timer == pre.delay_timer,
                        self@.sound_timer == pre.sound_timer,
                        self@.index_register == pre.index_register,
                        self@.program_counter == pre.program_counter,
                        self@.pixels == pre.pixels,
                        self@.keys == pre.keys,
                    decreases x + 1 - j,
                {
                    let b: u8 = self.memory[(self.index_register as usize + j) % 4096];
                    self.registers.set(j, b);
                    j = j + 1;
                }
                self.program_counter = next_pc;
                proof {
                    assert(self@ =~= spec_execute(pre, instr, rand)->Ok_0);
                }
                Ok(())
            },
            Instruction::Unknown(op) => Err(Chip8Error::UnknownOpcode(op)),
        }
    }

    /// Run one fetch-decode-execute cycle: read the word at the program
    /// counter, advance, and execute it. Timers are driven separately, by
    /// `tick_timers`, at their own fixed real-time rate.
    pub fn emulate_cycle(&mut self, rand: u8) -> (r: Result<(), Chip8Error>)
        requires
            old(self).wf(),
        ensures
            final(self).wf(),
            match spec_cycle(old(self)@, rand) {
                Ok(post) => r is Ok && final(self)@ == post,
                Err(e) => r is Err && r->Err_0 == e && final(self)@ == old(self)@,
            },
    {
        let opcode: u16 = self.read_opcode();
        self.execute_opcode(opcode, rand)
    }

    /// Advance both countdown timers by one tick: each is decremented if it
    /// is above zero and never goes negative. The external driver calls this
    /// at a fixed 60 Hz, independently of the instruction rate.
    pub fn tick_timers(&mut self)
        requires
            old(self).wf(),
        ensures
            final(self).wf(),
            final(self)@ == (CpuModel {
                delay_timer: dec_timer(old(self)@.delay_timer),
                sound_timer: dec_timer(old(self)@.sound_timer),
                ..old(self)@
            }),
    {
        if self.delay_timer > 0 {
            self.delay_timer = self.delay_timer - 1;
        }
        if self.sound_timer > 0 {
            self.sound_timer = self.sound_timer - 1;
        }
        proof {
            assert(self@ =~= (CpuModel {
                delay_timer: dec_timer(old(self)@.delay_timer),
                sound_timer: dec_timer(old(self)@.sound_timer),
                ..old(self)@
            }));
        }
    }

    /// Whether a tone should currently be sounding: true exactly while the
    /// sound timer is above zero.
    pub fn is_sounding(&self) -> (r: bool)
        ensures
            r == (self@.sound_timer > 0),
    {
        self.sound_timer > 0
    }

    /// Copy `program` into memory starting at `PROGRAM_START`. A program
    /// longer than the 3584 bytes available there is rejected before any
    /// byte is written.
    pub fn load_program(&mut self, program: &[u8]) -> (r: Result<(), Chip8Error>)
        requires
            old(self).wf(),
        ensures
            final(self).wf(),
            program@.len() <= 3584 ==> r is Ok && final(self)@ == (CpuModel {
                memory: loaded_memory(old(self)@.memory, program@),
                ..old(self)@
            }),
            program@.len() > 3584 ==> r is Err && r->Err_0 == Chip8Error::ProgramTooLarge
                && final(self)@ == old(self)@,
    {
        let ghost pre = self@;
        if program.len() > PROGRAM_CAPACITY {
            return Err(Chip8Error::ProgramTooLarge);
        }
        let mut i: usize = 0;
        while i < program.len()
            invariant
                pre.wf(),
                program@.len() <= 3584,
                i <= program@.len(),
                self@.memory.len() == 4096,
                forall|a: int|
                    0x200 <= a < 0x200 + i ==> self@.memory[a] == program@[a - 0x200],
                forall|a: int|
                    0 <= a < 4096 && !(0x200 <= a < 0x200 + i) ==> self@.memory[a]
                        == pre.memory[a],
                self@.registers == pre.registers,
                self@.stack == pre.stack,
                self@.stack_pointer == pre.stack_pointer,
                self@.delay_timer == pre.delay_timer,
                self@.sound_timer == pre.sound_timer,
                self@.index_register == pre.index_register,
                self@.program_counter == pre.program_counter,
                self@.pixels == pre.pixels,
                self@.keys == pre.keys,
            decreases program@.len() - i,
        {
            let b: u8 = program[i];
            self.memory.set(0x200 + i, b);
            i = i + 1;
        }
        proof {
            assert(self@.memory =~= loaded_memory(pre.memory, program@));
            assert(self@ =~= (CpuModel { memory: loaded_memory(pre.memory, program@), ..pre }));
        }
        Ok(())
    }
}

/// One whole cycle at the model level: fetch the word at the program
/// counter, decode it, execute it.
pub open spec fn spec_cycle(pre: CpuModel, rand: u8) -> Result<CpuModel, Chip8Error> {
    spec_execute(pre, spec_decode(spec_fetch(pre)), rand)
}

/// Law: for all register values, the add opcode stores the 8-bit wrapped
/// sum in register x and sets the flag register to 1 exactly when the true
/// sum reached 256. (With x = 0xF itself, the stored sum overwrites the
/// flag, so the flag register is excluded as a target here.)
pub proof fn lemma_add_reg_law(pre: CpuModel, x: usize, y: usize, rand: u8)
    requires
        pre.wf(),
        x < 15,
        y < 16,
    ensures
        spec_execute(pre, Instruction::AddReg(x, y), rand) matches Ok(post) && {
            let a = pre.registers[x as int];
            let b = pre.registers[y as int];
            &&& post.registers[x as int] == (a + b) % 256
            &&& post.registers[15] == (if a + b >= 256 {
                1u8
            } else {
                0u8
            })
            &&& post.program_counter == (pre.program_counter + 2) % 4096
        },
{
}

/// Law: for all register values, the subtract opcode stores the 8-bit
/// wrapped difference in register x and sets the flag register to 1 exactly
/// when no borrow occurred, that is when x's value was at least y's. (With
/// x = 0xF itself, the stored difference overwrites the flag, so the flag
/// register is excluded as a target here.)
pub proof fn lemma_sub_reg_law(pre: CpuModel, x: usize, y: usize, rand: u8)
    requires
        pre.wf(),
        x < 15,
        y < 16,
    ensures
        spec_execute(pre, Instruction::SubReg(x, y), rand) matches Ok(post) && {
            let a = pre.registers[x as int];
            let b = pre.registers[y as int];
            &&& post.registers[x as int] == (a - b + 256) % 256
            &&& post.registers[15] == (if a >= b {
                1u8
            } else {
                0u8
            })
            &&& post.program_counter == (pre.program_counter + 2) % 4096
        },
{
}

/// Law: a call followed by a return brings the program counter to the
/// instruction immediately after the call, and restores the stack pointer
/// and every other part of the state but the stack slot the call wrote.
pub proof fn lemma_call_ret_law(pre: CpuModel, nnn: u16, rand1: u8, rand2: u8)
    requires
        pre.wf(),
        pre.stack_pointer < 16,
    ensures
        spec_execute(pre, Instruction::Call(nnn), rand1) matches Ok(mid) && {
            &&& spec_execute(mid, Instruction::Ret, rand2) matches Ok(post)
            &&& spec_execute(mid, Instruction::Ret, rand2)->Ok_0.program_counter == (
            pre.program_counter + 2) % 4096
            &&& spec_execute(mid, Instruction::Ret, rand2)->Ok_0.stack_pointer
                == pre.stack_pointer
            &&& spec_execute(mid, Instruction::Ret, rand2)->Ok_0.registers == pre.registers
            &&& spec_execute(mid, Instruction::Ret, rand2)->Ok_0.memory == pre.memory
            &&& spec_execute(mid, Instruction::Ret, rand2)->Ok_0.pixels == pre.pixels
        },
{
    let next = (pre.program_counter + 2) % 4096;
    let mid = spec_execute(pre, Instruction::Call(nnn), rand1)->Ok_0;
    assert(mid.stack[pre.stack_pointer] == next as u16);
    assert(next as u16 as int % 4096 == next);
}

/// Law: a call succeeds exactly when the stack is not yet at its full depth
/// of 16 and then deepens it by one; a return succeeds exactly when the
/// stack is not empty.
pub proof fn lemma_stack_discipline(pre: CpuModel, nnn: u16, rand: u8)
    requires
        pre.wf(),
    ensures
        (spec_execute(pre, Instruction::Call(nnn), rand) is Ok) == (pre.stack_pointer < 16),
        (spec_execute(pre, Instruction::Call(nnn), rand) is Err) ==> spec_execute(
            pre,
            Instruction::Call(nnn),
            rand,
        )->Err_0 == Chip8Error::StackOverflow,
        spec_execute(pre, Instruction::Call(nnn), rand) matches Ok(post) ==> post.stack_pointer
            == pre.stack_pointer + 1,
        (spec_execute(pre, Instruction::Ret, rand) is Ok) == (pre.stack_pointer > 0),
        (spec_execute(pre, Instruction::Ret, rand) is Err) ==> spec_execute(
            pre,
            Instruction::Ret,
            rand,
        )->Err_0 == Chip8Error::StackUnderflow,
        spec_execute(pre, Instruction::Ret, rand) matches Ok(post) ==> post.stack_pointer
            == pre.stack_pointer - 1,
{
}

/// Memory after a program is copied in at `PROGRAM_START`: the program
/// bytes sit at `0x200..0x200+len`, everything else is untouched.
pub open spec fn loaded_memory(memory: Seq<u8>, program: Seq<u8>) -> Seq<u8> {
    Seq::new(
        4096,
        |a: int|
            if 0x200 <= a < 0x200 + program.len() {
                program[a - 0x200]
            } else {
                memory[a]
            },
    )
}

} // verus!

