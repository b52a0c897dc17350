use vstd::prelude::*;

verus! {

/// Number of general-purpose registers.
pub const NUM_REGS: usize = 16;

/// Size of the address space that a 12-bit address field can name.
pub const ADDR_SPACE: u16 = 0x1000;

/// One decoded instruction with its operands. `x` and `y` name registers,
/// `kk` is an 8-bit immediate, `addr` a 12-bit address and `n` a sprite height.
#[derive(Clone, Copy, Debug, PartialEq, Eq, Structural)]
pub enum Op {
    /// `0n00`: does nothing.
    Nop,
    /// `00E0`: unsets every pixel.
    ClearScreen,
    /// `00EE`: pops the return address into PC.
    Return,
    /// `1nnn`: PC := addr.
    Jump { addr: u16 },
    /// `2nnn`: pushes PC, then PC := addr.
    Call { addr: u16 },
    /// `3xkk`: skips the next instruction if Vx == kk.
    SkipEqImm { x: u8, kk: u8 },
    /// `4xkk`: skips the next instruction if Vx != kk.
    SkipNeImm { x: u8, kk: u8 },
    /// `5xy_`: skips the next instruction if Vx == Vy.
    SkipEqReg { x: u8, y: u8 },
    /// `6xkk`: Vx := kk.
    LoadImm { x: u8, kk: u8 },
    /// `7xkk`: Vx := Vx + kk, wrapping.
    AddImm { x: u8, kk: u8 },
    /// `8xy0`: Vx := Vy.
    Move { x: u8, y: u8 },
    /// `8xy1`: Vx := Vx OR Vy.
    Or { x: u8, y: u8 },
    /// `8xy2`: Vx := Vx AND Vy.
    And { x: u8, y: u8 },
    /// `8xy3`: Vx := Vx XOR Vy.
    Xor { x: u8, y: u8 },
    /// `8xy4`: VF := carry of Vx + Vy; Vx := Vx + Vy, wrapping.
    AddReg { x: u8, y: u8 },
    /// `8xy5`: VF := Vx > Vy; Vx := Vx - Vy, wrapping.
    SubReg { x: u8, y: u8 },
    /// `8xy6`: VF := low bit of Vx; Vx := Vx >> 1.
    ShiftRight { x: u8 },
    /// `8xy7`: VF := Vy > Vx; Vy := Vy - Vx, wrapping.
    SubnReg { x: u8, y: u8 },
    /// `8xyE`: VF := high bit of Vx; Vx := Vx << 1.
    ShiftLeft { x: u8 },
    /// `9xy_`: skips the next instruction if Vx != Vy.
    SkipNeReg { x: u8, y: u8 },
    /// `Annn`: I := addr.
    LoadIndex { addr: u16 },
    /// `Bnnn`: PC := addr + V0.
    JumpOffset { addr: u16 },
    /// `Cxkk`: Vx := a random byte AND kk.
    Random { x: u8, kk: u8 },
    /// `Dxyn`: draws the n-byte sprite at I at (Vx, Vy); VF := collision.
    Draw { x: u8, y: u8, n: u8 },
    /// `Ex9E`: skips the next instruction if key Vx is held.
    SkipKeyDown { x: u8 },
    /// `ExA1`: skips the next instruction if key Vx is not held.
    SkipKeyUp { x: u8 },
    /// `Fx07`: Vx := delay timer.
    LoadDelay { x: u8 },
    /// `Fx0A`: waits for a key and puts its code in Vx.
    WaitKey { x: u8 },
    /// `Fx15`: delay timer := Vx.
    SetDelay { x: u8 },
    /// `Fx18`: sound timer := Vx.
    SetSound { x: u8 },
    /// `Fx1E`: VF := carry of I + Vx over 16 bits; I := I + Vx, wrapping.
    AddIndex { x: u8 },
    /// `Fx29`: I := address of the font glyph of digit Vx.
    LoadGlyph { x: u8 },
    /// `Fx33`: stores the decimal digits of Vx at I, I+1, I+2.
    StoreBcd { x: u8 },
    /// `Fx55`: stores V0..Vx at I onwards.
    StoreRegs { x: u8 },
    /// `Fx65`: loads V0..Vx from I onwards.
    LoadRegs { x: u8 },
}

/// A fatal condition that stops the interpreter.
#[derive(Clone, Copy, Debug, PartialEq, Eq, Structural)]
pub enum Fault {
    /// The opcode is none of the instruction set's.
    UnknownOpcode(u16),
    /// A return was executed with an empty call stack.
    StackUnderflow,
    /// The lowest address, past the end of memory, that an instruction needed.
    OutOfRangeAddress(usize),
}

impl Op {
    /// Register indices name registers, addresses fit in 12 bits and sprite
    /// heights in 4.
    pub open spec fn wf(self) -> bool {
        match self {
            Op::Jump { addr } | Op::Call { addr } | Op::LoadIndex { addr } | Op::JumpOffset {
                addr,
            } => addr < ADDR_SPACE,
            Op::SkipEqImm { x, .. } | Op::SkipNeImm { x, .. } | Op::LoadImm { x, .. }
            | Op::AddImm { x, .. } | Op::Random { x, .. } => x < NUM_REGS,
            Op::SkipEqReg { x, y } | Op::SkipNeReg { x, y } | Op::Move { x, y } | Op::Or { x, y }
            | Op::And { x, y } | Op::Xor { x, y } | Op::AddReg { x, y } | Op::SubReg { x, y }
            | Op::SubnReg { x, y } => x < NUM_REGS && y < NUM_REGS,
            Op::Draw { x, y, n } => x < NUM_REGS && y < NUM_REGS && n < 16,
            Op::ShiftRight { x } | Op::ShiftLeft { x } | Op::SkipKeyDown { x } | Op::SkipKeyUp {
                x,
            } | Op::LoadDelay { x } | Op::WaitKey { x } | Op::SetDelay { x } | Op::SetSound { x }
            | Op::AddIndex { x } | Op::LoadGlyph { x } | Op::StoreBcd { x } | Op::StoreRegs { x }
            | Op::LoadRegs { x } => x < NUM_REGS,
            Op::Nop | Op::ClearScreen | Op::Return => true,
        }
    }
}

/// The 12-bit address field of `opcode`.
pub open spec fn addr_of(opcode: u16) -> u16 {
    opcode & 0x0FFF
}

/// The first register field of `opcode`.
pub open spec fn x_of(opcode: u16) -> u8 {
    ((opcode & 0x0F00) >> 8) as u8
}

/// The second register field of `opcode`.
pub open spec fn y_of(opcode: u16) -> u8 {
    ((opcode & 0x00F0) >> 4) as u8
}

/// The 8-bit immediate field of `opcode`.
pub open spec fn kk_of(opcode: u16) -> u8 {
    (opcode & 0x00FF) as u8
}

/// The low nibble of `opcode`.
pub open spec fn n_of(opcode: u16) -> u8 {
    (opcode & 0x000F) as u8
}

/// The instruction that `opcode` encodes, or `None` for an unknown opcode.
pub open spec fn decoded(opcode: u16) -> Option<Op> {
    let addr = addr_of(opcode);
    let x = x_of(opcode);
    let y = y_of(opcode);
    let kk = kk_of(opcode);
    let n = n_of(opcode);
    match opcode >> 12 {
        0x0 => match kk {
            0x00 => Some(Op::Nop),
            0xE0 => Some(Op::ClearScreen),
            0xEE => Some(Op::Return),
            _ => None,
        },
        0x1 => Some(Op::Jump { addr }),
        0x2 => Some(Op::Call { addr }),
        0x3 => Some(Op::SkipEqImm { x, kk }),
        0x4 => Some(Op::SkipNeImm { x, kk }),
        0x5 => Some(Op::SkipEqReg { x, y }),
        0x6 => Some(Op::LoadImm { x, kk }),
        0x7 => Some(Op::AddImm { x, kk }),
        0x8 => match n {
            0x0 => Some(Op::Move { x, y }),
            0x1 => Some(Op::Or { x, y }),
            0x2 => Some(Op::And { x, y }),
            0x3 => Some(Op::Xor { x, y }),
            0x4 => Some(Op::AddReg { x, y }),
            0x5 => Some(Op::SubReg { x, y }),
            0x6 => Some(Op::ShiftRight { x }),
            0x7 => Some(Op::SubnReg { x, y }),
            0xE => Some(Op::ShiftLeft { x }),
            _ => None,
        },
        0x9 => Some(Op::SkipNeReg { x, y }),
        0xA => Some(Op::LoadIndex { addr }),
        0xB => Some(Op::JumpOffset { addr }),
        0xC => Some(Op::Random { x, kk }),
        0xD => Some(Op::Draw { x, y, n }),
        0xE => match kk {
            0x9E => Some(Op::SkipKeyDown { x }),
            0xA1 => Some(Op::SkipKeyUp { x }),
            _ => None,
        },
        _ => match kk {
            0x07 => Some(Op::LoadDelay { x }),
            0x0A => Some(Op::WaitKey { x }),
            0x15 => Some(Op::SetDelay { x }),
            0x18 => Some(Op::SetSound { x }),
            0x1E => Some(Op::AddIndex { x }),
            0x29 => Some(Op::LoadGlyph { x }),
            0x33 => Some(Op::StoreBcd { x }),
            0x55 => Some(Op::StoreRegs { x }),
            0x65 => Some(Op::LoadRegs { x }),
            _ => None,
        },
    }
}

/// The fields of every opcode are in range.
proof fn lemma_fields_in_range(opcode: u16)
    ensures
        addr_of(opcode) < ADDR_SPACE,
        x_of(opcode) < NUM_REGS,
        y_of(opcode) < NUM_REGS,
        n_of(opcode) < 16,
        opcode >> 12 < 16,
{
    assert(opcode & 0x0FFF < 0x1000) by (bit_vector);
    assert((opcode & 0x0F00) >> 8 < 16) by (bit_vector);
    assert((opcode & 0x00F0) >> 4 < 16) by (bit_vector);
    assert(opcode & 0x000F < 16) by (bit_vector);
    assert(opcode >> 12 < 16) by (bit_vector);
}

/// Splits `opcode` into the instruction it encodes, or `None` where it
/// encodes none.
pub fn decode(opcode: u16) -> (r: Option<Op>)
    ensures
        r == decoded(opcode),
        r matches Some(op) ==> op.wf(),
{
    proof {
        lemma_fields_in_range(opcode);
    }
    let addr = opcode & 0x0FFF;
    let x = ((opcode & 0x0F00) >> 8) as u8;
    let y = ((opcode & 0x00F0) >> 4) as u8;
    let kk = (opcode & 0x00FF) as u8;
    let n = (opcode & 0x000F) as u8;
    match opcode >> 12 {
        0x0 => match kk {
            0x00 => Some(Op::Nop),
            0xE0 => Some(Op::ClearScreen),
            0xEE => Some(Op::Return),
            _ => None,
        },
        0x1 => Some(Op::Jump { addr }),
        0x2 => Some(Op::Call { addr }),
        0x3 => Some(Op::SkipEqImm { x, kk }),
        0x4 => Some(Op::SkipNeImm { x, kk }),
        0x5 => Some(Op::SkipEqReg { x, y }),
        0x6 => Some(Op::LoadImm { x, kk }),
        0x7 => Some(Op::AddImm { x, kk }),
        0x8 => match n {
            0x0 => Some(Op::Move { x, y }),
            0x1 => Some(Op::Or { x, y }),
            0x2 => Some(Op::And { x, y }),
            0x3 => Some(Op::Xor { x, y }),
            0x4 => Some(Op::AddReg { x, y }),
            0x5 => Some(Op::SubReg { x, y }),
            0x6 => Some(Op::ShiftRight { x }),
            0x7 => Some(Op::SubnReg { x, y }),
            0xE => Some(Op::ShiftLeft { x }),
            _ => None,
        },
        0x9 => Some(Op::SkipNeReg { x, y }),
        0xA => Some(Op::LoadIndex { addr }),
        0xB => Some(Op::JumpOffset { addr }),
        0xC => Some(Op::Random { x, kk }),
        0xD => Some(Op::Draw { x, y, n }),
        0xE => match kk {
            0x9E => Some(Op::SkipKeyDown { x }),
            0xA1 => Some(Op::SkipKeyUp { x }),
            _ => None,
        },
        _ => match kk {
            0x07 => Some(Op::LoadDelay { x }),
            0x0A => Some(Op::WaitKey { x }),
            0x15 => Some(Op::SetDelay { x }),
            0x18 => Some(Op::SetSound { x }),
            0x1E => Some(Op::AddIndex { x }),
            0x29 => Some(Op::LoadGlyph { x }),
            0x33 => Some(Op::StoreBcd { x }),
            0x55 => Some(Op::StoreRegs { x }),
            0x65 => Some(Op::LoadRegs { x }),
            _ => None,
        },
    }
}

} // verus!
