use vstd::prelude::*;
use crate::keyboard::{Keyboard, key_held, first_held};
use crate::memory::{Memory, RAM_LENGTH, spliced};
use crate::op::{Op, Fault, NUM_REGS, decoded, decode, kk_of};
use crate::screen::{
    NUM_PIXELS, Screen, blank, collision, drawn, drawn_len, lemma_collision_iff_set_pixel_hit,
    lemma_sprite_twice_restores, sprite_target,
};

verus! {

/// The register that arithmetic and drawing use for their flag.
pub const FLAG: usize = 0xF;

/// Where programs are loaded and where execution starts.
pub const PROGRAM_START: u16 = 0x200;

/// Bytes of each font glyph.
pub const GLYPH_BYTES: u16 = 5;

/// The interpreter's registers and control state, as values.
pub struct CpuView {
    pub v: Seq<u8>,
    pub pc: u16,
    pub i: u16,
    pub delay_timer: u8,
    pub sound_timer: u8,
    /// Return addresses, the most recent last.
    pub stack: Seq<u16>,
    pub waiting_for_key: bool,
    /// The register that receives the key a wait ends with.
    pub key_register: u8,
}

/// The interpreter together with the memory and the display it works on.
pub struct Machine {
    pub cpu: CpuView,
    pub mem: Seq<u8>,
    pub frame: Seq<u8>,
}

impl CpuView {
    pub open spec fn wf(self) -> bool {
        self.v.len() == NUM_REGS && self.key_register < NUM_REGS
    }
}

impl Machine {
    pub open spec fn wf(self) -> bool {
        self.cpu.wf() && self.mem.len() == RAM_LENGTH
    }
}

/// `m` with its interpreter state replaced by `c`.
pub open spec fn with_cpu(m: Machine, c: CpuView) -> Machine {
    Machine { cpu: c, mem: m.mem, frame: m.frame }
}

/// `c` with register `r` set to `val`.
pub open spec fn with_reg(c: CpuView, r: int, val: u8) -> CpuView {
    CpuView { v: c.v.update(r, val), ..c }
}

/// `c` with PC moved past the next instruction when `cond` holds.
pub open spec fn skip_if(c: CpuView, cond: bool) -> CpuView {
    if cond {
        CpuView { pc: ((c.pc + 2) % 0x10000) as u16, ..c }
    } else {
        c
    }
}

/// `n` reduced to a byte, wrapping.
pub open spec fn wrap8(n: int) -> u8 {
    (n % 0x100) as u8
}

/// The lowest address at or after `start` that lies past the end of memory.
pub open spec fn first_outside(start: int) -> usize {
    if start >= RAM_LENGTH {
        start as usize
    } else {
        RAM_LENGTH
    }
}

/// The sprite rows of `n` bytes at `start`, unpacked into one entry per bit
/// (0 or 1), most significant bit first.
pub open spec fn sprite_bits(mem: Seq<u8>, start: int, n: int) -> Seq<u8> {
    Seq::new((8 * n) as nat, |k: int| (mem[start + k / 8] >> ((7 - k % 8) as u8)) & 1)
}

/// The hundreds, tens and units digits of `b`.
pub open spec fn bcd(b: u8) -> Seq<u8> {
    seq![b / 100, (b % 100) / 10, b % 10]
}

/// Whether `op` only changes registers, I or the timers.
pub open spec fn is_reg_op(op: Op) -> bool {
    match op {
        Op::LoadImm { .. } | Op::AddImm { .. } | Op::Move { .. } | Op::Or { .. } | Op::And { .. }
        | Op::Xor { .. } | Op::AddReg { .. } | Op::SubReg { .. } | Op::ShiftRight { .. }
        | Op::SubnReg { .. } | Op::ShiftLeft { .. } | Op::LoadIndex { .. } | Op::LoadDelay { .. }
        | Op::SetDelay { .. } | Op::SetSound { .. } | Op::AddIndex { .. } | Op::LoadGlyph {
            ..
        } => true,
        _ => false,
    }
}

/// What an instruction that only changes registers, I or the timers does to `c`.
pub open spec fn reg_op(c: CpuView, op: Op) -> CpuView {
    let v = c.v;
    match op {
        Op::LoadImm { x, kk } => with_reg(c, x as int, kk),
        Op::AddImm { x, kk } => with_reg(c, x as int, wrap8(v[x as int] + kk)),
        Op::Move { x, y } => with_reg(c, x as int, v[y as int]),
        Op::Or { x, y } => with_reg(c, x as int, v[x as int] | v[y as int]),
        Op::And { x, y } => with_reg(c, x as int, v[x as int] & v[y as int]),
        Op::Xor { x, y } => with_reg(c, x as int, v[x as int] ^ v[y as int]),
        Op::AddReg { x, y } => {
            let sum = v[x as int] + v[y as int];
            let flagged = with_reg(c, FLAG as int, if sum > 0xFF { 1 } else { 0 });
            with_reg(flagged, x as int, wrap8(sum))
        },
        Op::SubReg { x, y } => {
            let flagged = with_reg(c, FLAG as int, if v[x as int] > v[y as int] { 1 } else { 0 });
            let w = flagged.v;
            with_reg(flagged, x as int, wrap8(w[x as int] - w[y as int]))
        },
        Op::ShiftRight { x } => {
            let flagged = with_reg(c, FLAG as int, v[x as int] & 1);
            with_reg(flagged, x as int, flagged.v[x as int] >> 1u8)
        },
        Op::SubnReg { x, y } => {
            let flagged = with_reg(c, FLAG as int, if v[y as int] > v[x as int] { 1 } else { 0 });
            let w = flagged.v;
            with_reg(flagged, y as int, wrap8(w[y as int] - w[x as int]))
        },
        Op::ShiftLeft { x } => {
            let flagged = with_reg(c, FLAG as int, if v[x as int] & 0x80 > 0 { 1 } else { 0 });
            with_reg(flagged, x as int, wrap8(flagged.v[x as int] * 2))
        },
        Op::LoadIndex { addr } => CpuView { i: addr, ..c },
        Op::LoadDelay { x } => with_reg(c, x as int, c.delay_timer),
        Op::SetDelay { x } => CpuView { delay_timer: v[x as int], ..c },
        Op::SetSound { x } => CpuView { sound_timer: v[x as int], ..c },
        Op::AddIndex { x } => {
            let sum = c.i + v[x as int];
            let flagged = with_reg(c, FLAG as int, if sum > 0xFFFF { 1 } else { 0 });
            CpuView { i: (sum % 0x10000) as u16, ..flagged }
        },
        Op::LoadGlyph { x } => CpuView { i: (v[x as int] * GLYPH_BYTES) as u16, ..c },
        _ => c,
    }
}

/// What executing `op` does to `m` while `keys` are held, where `rnd` is the
/// random byte drawn for it: the machine afterwards, and the fault if the
/// instruction cannot run, in which case the machine is `m` unchanged.
pub open spec fn exec_op(m: Machine, keys: Seq<bool>, op: Op, rnd: u8) -> (Machine, Option<Fault>) {
    let c = m.cpu;
    let v = c.v;
    match op {
        Op::Nop => (m, None),
        Op::ClearScreen => (Machine { frame: blank(), ..m }, None),
        Op::Return => if c.stack.len() == 0 {
            (m, Some(Fault::StackUnderflow))
        } else {
            (with_cpu(m, CpuView { pc: c.stack.last(), stack: c.stack.drop_last(), ..c }), None)
        },
        Op::LoadImm { .. } | Op::AddImm { .. } | Op::Move { .. } | Op::Or { .. } | Op::And { .. }
        | Op::Xor { .. } | Op::AddReg { .. } | Op::SubReg { .. } | Op::ShiftRight { .. }
        | Op::SubnReg { .. } | Op::ShiftLeft { .. } | Op::LoadIndex { .. } | Op::LoadDelay { .. }
        | Op::SetDelay { .. } | Op::SetSound { .. } | Op::AddIndex { .. } | Op::LoadGlyph {
            ..
        } => (with_cpu(m, reg_op(c, op)), None),
        Op::Jump { addr } => (with_cpu(m, CpuView { pc: addr, ..c }), None),
        Op::Call { addr } => (
            with_cpu(m, CpuView { pc: addr, stack: c.stack.push(c.pc), ..c }),
            None,
        ),
        Op::SkipEqImm { x, kk } => (with_cpu(m, skip_if(c, v[x as int] == kk)), None),
        Op::SkipNeImm { x, kk } => (with_cpu(m, skip_if(c, v[x as int] != kk)), None),
        Op::SkipEqReg { x, y } => (with_cpu(m, skip_if(c, v[x as int] == v[y as int])), None),
        Op::SkipNeReg { x, y } => (with_cpu(m, skip_if(c, v[x as int] != v[y as int])), None),
        Op::JumpOffset { addr } => (with_cpu(m, CpuView { pc: (addr + v[0]) as u16, ..c }), None),
        Op::Random { x, kk } => (with_cpu(m, with_reg(c, x as int, rnd & kk)), None),
        Op::Draw { x, y, n } => if n > 0 && c.i + n > RAM_LENGTH {
            (m, Some(Fault::OutOfRangeAddress(first_outside(c.i as int))))
        } else {
            let sprite = sprite_bits(m.mem, c.i as int, n as int);
            let hit = collision(m.frame, sprite, v[x as int] as int, v[y as int] as int);
            (
                Machine {
                    cpu: with_reg(c, FLAG as int, hit),
                    mem: m.mem,
                    frame: drawn(m.frame, sprite, v[x as int] as int, v[y as int] as int),
                },
                None,
            )
        },
        Op::SkipKeyDown { x } => (with_cpu(m, skip_if(c, key_held(keys, v[x as int]))), None),
        Op::SkipKeyUp { x } => (with_cpu(m, skip_if(c, !key_held(keys, v[x as int]))), None),
        Op::WaitKey { x } => (
            with_cpu(m, CpuView { waiting_for_key: true, key_register: x, ..c }),
            None,
        ),
        Op::StoreBcd { x } => if c.i + 3 > RAM_LENGTH {
            (m, Some(Fault::OutOfRangeAddress(first_outside(c.i as int))))
        } else {
            (Machine { mem: spliced(m.mem, c.i as int, bcd(v[x as int])), ..m }, None)
        },
        Op::StoreRegs { x } => if c.i + x + 1 > RAM_LENGTH {
            (m, Some(Fault::OutOfRangeAddress(first_outside(c.i as int))))
        } else {
            (Machine { mem: spliced(m.mem, c.i as int, v.take(x + 1)), ..m }, None)
        },
        Op::LoadRegs { x } => if c.i + x + 1 > RAM_LENGTH {
            (m, Some(Fault::OutOfRangeAddress(first_outside(c.i as int))))
        } else {
            let loaded = Seq::new(
                NUM_REGS as nat,
                |j: int|
                    if j <= x {
                        m.mem[c.i + j]
                    } else {
                        v[j]
                    },
            );
            (with_cpu(m, CpuView { v: loaded, ..c }), None)
        },
    }
}


/// `a + b`, wrapping.
fn add8(a: u8, b: u8) -> (r: u8)
    ensures
        r == wrap8(a + b),
{
    ((a as u16 + b as u16) % 0x100) as u8
}

/// `a - b`, wrapping.
fn sub8(a: u8, b: u8) -> (r: u8)
    ensures
        r == wrap8(a - b),
{
    ((a as u16 + 0x100 - b as u16) % 0x100) as u8
}

/// `a` shifted left by one bit, the high bit dropped.
fn shl8(a: u8) -> (r: u8)
    ensures
        r == wrap8(a * 2),
{
    ((a as u16 * 2) % 0x100) as u8
}

/// The error, if any, that a fault stops a call with.
pub open spec fn as_result(fault: Option<Fault>) -> Result<(), Fault> {
    match fault {
        Some(f) => Err(f),
        None => Ok(()),
    }
}

/// The interpreter: registers, program counter, index register, timers,
/// call stack and the key-wait state.
pub struct Cpu {
    pub v: [u8; NUM_REGS],
    pub pc: u16,
    pub i: u16,
    pub delay_timer: u8,
    pub sound_timer: u8,
    stack: Vec<u16>,
    waiting_for_key: bool,
    key_register: u8,
}

impl View for Cpu {
    type V = CpuView;

    closed spec fn view(&self) -> CpuView {
        CpuView {
            v: self.v@,
            pc: self.pc,
            i: self.i,
            delay_timer: self.delay_timer,
            sound_timer: self.sound_timer,
            stack: self.stack@,
            waiting_for_key: self.waiting_for_key,
            key_register: self.key_register,
        }
    }
}

/// The state that `Cpu::new` and `Cpu::reset` give: everything zero, PC at
/// the program start, an empty stack, no key wait.
pub open spec fn initial_cpu() -> CpuView {
    CpuView {
        v: Seq::new(NUM_REGS as nat, |j: int| 0u8),
        pc: PROGRAM_START,
        i: 0,
        delay_timer: 0,
        sound_timer: 0,
        stack: Seq::empty(),
        waiting_for_key: false,
        key_register: 0,
    }
}

impl Cpu {
    pub open spec fn wf(&self) -> bool {
        self@.wf()
    }

    /// An interpreter in its reset state.
    pub fn new() -> (r: Self)
        ensures
            r@ == initial_cpu(),
            r.wf(),
    {
        let r = Cpu {
            v: [0u8; NUM_REGS],
            pc: PROGRAM_START,
            i: 0,
            delay_timer: 0,
            sound_timer: 0,
            stack: Vec::new(),
            waiting_for_key: false,
            key_register: 0,
        };
        assert(r@.v =~= initial_cpu().v);
        assert(r@.stack =~= initial_cpu().stack);
        r
    }

    /// Moves PC past the next instruction.
    fn skip(&mut self)
        ensures
            final(self)@ == skip_if(old(self)@, true),
    {
        if self.pc < 0xFFFE {
            self.pc = self.pc + 2;
        } else {
            self.pc = self.pc - 0xFFFE;
        }
    }

    /// Executes `op`, where `rnd` is the random byte that `Op::Random` uses,
    /// against `ram` and `screen` with the keys of `keyboard`.
    pub fn exec<M: Memory, S: Screen, K: Keyboard>(
        &mut self,
        op: Op,
        rnd: u8,
        ram: &mut M,
        screen: &mut S,
        keyboard: &K,
    ) -> (r: Result<(), Fault>)
        requires
            old(self).wf(),
            op.wf(),
        ensures
            final(self).wf(),
            (Machine { cpu: final(self)@, mem: final(ram).bytes(), frame: final(screen).frame() })
                == exec_op(
                (Machine { cpu: old(self)@, mem: old(ram).bytes(), frame: old(screen).frame() }),
                keyboard.held(),
                op,
                rnd,
            ).0,
            r == as_result(
                exec_op(
                    (Machine { cpu: old(self)@, mem: old(ram).bytes(), frame: old(screen).frame() }),
                    keyboard.held(),
                    op,
                    rnd,
                ).1,
            ),
    {
        proof {
            ram.lemma_bytes_len();
            screen.lemma_frame_len();
        }
        match op {
            Op::Nop => {},
            Op::ClearScreen => screen.clear(),
            Op::Return => {
                match self.stack.pop() {
                    Some(a) => self.pc = a,
                    None => return Err(Fault::StackUnderflow),
                }
            },
            Op::Jump { addr } => self.pc = addr,
            Op::Call { addr } => {
                self.stack.push(self.pc);
                self.pc = addr;
            },
            Op::SkipEqImm { x, kk } => if self.v[x as usize] == kk {
                self.skip()
            },
            Op::SkipNeImm { x, kk } => if self.v[x as usize] != kk {
                self.skip()
            },
            Op::SkipEqReg { x, y } => if self.v[x as usize] == self.v[y as usize] {
                self.skip()
            },
            Op::SkipNeReg { x, y } => if self.v[x as usize] != self.v[y as usize] {
                self.skip()
            },
            Op::LoadImm { .. } | Op::AddImm { .. } | Op::Move { .. } | Op::Or { .. } | Op::And {
                ..
            } | Op::Xor { .. } | Op::AddReg { .. } | Op::SubReg { .. } | Op::ShiftRight { .. }
            | Op::SubnReg { .. } | Op::ShiftLeft { .. } | Op::LoadIndex { .. } | Op::LoadDelay {
                ..
            } | Op::SetDelay { .. } | Op::SetSound { .. } | Op::AddIndex { .. } | Op::LoadGlyph {
                ..
            } => self.exec_reg(op),
            Op::JumpOffset { addr } => self.pc = addr + self.v[0] as u16,
            Op::Random { x, kk } => self.v[x as usize] = rnd & kk,
            Op::Draw { x, y, n } => {
                if n > 0 && self.i as usize + n as usize > RAM_LENGTH {
                    return Err(Fault::OutOfRangeAddress(self.outside_from_i()));
                }
                let sprite = self.read_sprite(ram, n);
                let hit = screen.draw_sprite(
                    self.v[x as usize] as usize,
                    self.v[y as usize] as usize,
                    sprite.as_slice(),
                );
                self.v[FLAG] = hit;
            },
            Op::SkipKeyDown { x } => if keyboard.is_pressed(self.v[x as usize]) {
                self.skip()
            },
            Op::SkipKeyUp { x } => if !keyboard.is_pressed(self.v[x as usize]) {
                self.skip()
            },
            Op::WaitKey { x } => {
                self.waiting_for_key = true;
                self.key_register = x;
            },
            Op::StoreBcd { x } => {
                if self.i as usize + 3 > RAM_LENGTH {
                    return Err(Fault::OutOfRangeAddress(self.outside_from_i()));
                }
                let b = self.v[x as usize];
                let at = self.i as usize;
                let ghost before = ram.bytes();
                ram.write(at, b / 100);
                ram.write(at + 1, (b % 100) / 10);
                ram.write(at + 2, b % 10);
                assert(ram.bytes() =~= spliced(before, at as int, bcd(b)));
            },
            Op::StoreRegs { x } => {
                if self.i as usize + x as usize + 1 > RAM_LENGTH {
                    return Err(Fault::OutOfRangeAddress(self.outside_from_i()));
                }
                let regs = vstd::slice::slice_subrange(self.v.as_slice(), 0, x as usize + 1);
                assert(regs@ =~= self.v@.take(x + 1));
                ram.write_seq(self.i as usize, regs);
            },
            Op::LoadRegs { x } => {
                if self.i as usize + x as usize + 1 > RAM_LENGTH {
                    return Err(Fault::OutOfRangeAddress(self.outside_from_i()));
                }
                self.load_regs(ram, x);
            },
        }
        Ok(())
    }

    /// Executes an instruction that only changes registers, I or the timers.
    fn exec_reg(&mut self, op: Op)
        requires
            old(self).wf(),
            op.wf(),
            is_reg_op(op),
        ensures
            final(self)@ == reg_op(old(self)@, op),
    {
        match op {
            Op::LoadImm { x, kk } => self.v[x as usize] = kk,
            Op::AddImm { x, kk } => {
                self.v[x as usize] = add8(self.v[x as usize], kk);
            },
            Op::Move { x, y } => self.v[x as usize] = self.v[y as usize],
            Op::Or { x, y } => self.v[x as usize] = self.v[x as usize] | self.v[y as usize],
            Op::And { x, y } => self.v[x as usize] = self.v[x as usize] & self.v[y as usize],
            Op::Xor { x, y } => self.v[x as usize] = self.v[x as usize] ^ self.v[y as usize],
            Op::AddReg { x, y } => {
                let a = self.v[x as usize];
                let b = self.v[y as usize];
                self.v[FLAG] = if a as u16 + b as u16 > 0xFF { 1 } else { 0 };
                self.v[x as usize] = add8(a, b);
            },
            Op::SubReg { x, y } => {
                self.v[FLAG] = if self.v[x as usize] > self.v[y as usize] { 1 } else { 0 };
                self.v[x as usize] = sub8(self.v[x as usize], self.v[y as usize]);
            },
            Op::ShiftRight { x } => {
                self.v[FLAG] = self.v[x as usize] & 1;
                self.v[x as usize] = self.v[x as usize] >> 1u8;
            },
            Op::SubnReg { x, y } => {
                self.v[FLAG] = if self.v[y as usize] > self.v[x as usize] { 1 } else { 0 };
                self.v[y as usize] = sub8(self.v[y as usize], self.v[x as usize]);
            },
            Op::ShiftLeft { x } => {
                self.v[FLAG] = if self.v[x as usize] & 0x80 > 0 { 1 } else { 0 };
                self.v[x as usize] = shl8(self.v[x as usize]);
            },
            Op::LoadIndex { addr } => self.i = addr,
            Op::LoadDelay { x } => self.v[x as usize] = self.delay_timer,
            Op::SetDelay { x } => self.delay_timer = self.v[x as usize],
            Op::SetSound { x } => self.sound_timer = self.v[x as usize],
            Op::AddIndex { x } => {
                let sum = self.i as u32 + self.v[x as usize] as u32;
                self.v[FLAG] = if sum > 0xFFFF { 1 } else { 0 };
                self.i = (sum % 0x10000) as u16;
            },
            Op::LoadGlyph { x } => self.i = self.v[x as usize] as u16 * GLYPH_BYTES,
            _ => {},
        }
    }

    /// The lowest address from I on that lies past the end of memory.
    fn outside_from_i(&self) -> (r: usize)
        ensures
            r == first_outside(self.i as int),
    {
        if self.i as usize >= RAM_LENGTH {
            self.i as usize
        } else {
            RAM_LENGTH
        }
    }

    /// The `n` sprite rows at I, one entry per bit.
    fn read_sprite<M: Memory>(&self, ram: &mut M, n: u8) -> (r: Vec<u8>)
        requires
            n == 0 || self.i + n <= RAM_LENGTH,
        ensures
            r@ == sprite_bits(old(ram).bytes(), self.i as int, n as int),
            final(ram).bytes() == old(ram).bytes(),
    {
        let ghost mem = ram.bytes();
        let mut sprite: Vec<u8> = Vec::new();
        let mut row: u8 = 0;
        while row < n
            invariant
                row <= n,
                n == 0 || self.i + n <= RAM_LENGTH,
                ram.bytes() == mem,
                sprite@.len() == 8 * row,
                forall|k: int|
                    0 <= k < sprite@.len() ==> sprite@[k] == sprite_bits(mem, self.i as int, n as int)[k],
            decreases n - row,
        {
            let p = ram.read(self.i as usize + row as usize);
            let mut b: u8 = 0;
            while b < 8
                invariant
                    row < n,
                    b <= 8,
                    p == mem[self.i + row],
                    sprite@.len() == 8 * row + b,
                    forall|k: int|
                        0 <= k < sprite@.len() ==> sprite@[k] == sprite_bits(mem, self.i as int, n as int)[k],
                decreases 8 - b,
            {
                let ghost k = 8 * row + b;
                assert(k / 8 == row as int && k % 8 == b as int) by (nonlinear_arith)
                    requires
                        k == 8 * row + b,
                        0 <= b < 8,
                ;
                sprite.push((p >> (7 - b)) & 1);
                b = b + 1;
            }
            row = row + 1;
        }
        assert(sprite@ =~= sprite_bits(mem, self.i as int, n as int));
        sprite
    }

    /// Loads V0..Vx from I onwards.
    fn load_regs<M: Memory>(&mut self, ram: &mut M, x: u8)
        requires
            old(self).wf(),
            x < NUM_REGS,
            old(self).i + x + 1 <= RAM_LENGTH,
        ensures
            final(self)@ == (CpuView {
                v: Seq::new(
                    NUM_REGS as nat,
                    |j: int|
                        if j <= x {
                            old(ram).bytes()[old(self).i + j]
                        } else {
                            old(self)@.v[j]
                        },
                ),
                ..old(self)@
            }),
            final(ram).bytes() == old(ram).bytes(),
    {
        let ghost mem = ram.bytes();
        let ghost start = self@;
        let mut j: usize = 0;
        while j <= x as usize
            invariant
                j <= x + 1,
                x < NUM_REGS,
                self.i + x + 1 <= RAM_LENGTH,
                ram.bytes() == mem,
                self@ == (CpuView { v: self@.v, ..start }),
                self@.v.len() == NUM_REGS,
                forall|k: int|
                    0 <= k < NUM_REGS ==> self@.v[k] == if k < j {
                        mem[start.i + k]
                    } else {
                        start.v[k]
                    },
            decreases x + 1 - j,
        {
            let b = ram.read(self.i as usize + j);
            self.v[j] = b;
            j = j + 1;
        }
        assert(self@.v =~= Seq::new(
            NUM_REGS as nat,
            |k: int|
                if k <= x {
                    mem[start.i + k]
                } else {
                    start.v[k]
                },
        ));
    }
}


/// Instructions executed by each `Cpu::tick`.
pub const CYCLES_PER_TICK: u64 = 10;

/// What one interpreter step does to `m` while `keys` are held, with `rnd`
/// as the random byte: a pending key wait is resolved by the lowest held key,
/// or else the instruction at PC is fetched, PC advances by 2, and the
/// instruction executes.
pub open spec fn step_spec(m: Machine, keys: Seq<bool>, rnd: u8) -> (Machine, Option<Fault>) {
    let c = m.cpu;
    if c.waiting_for_key {
        match first_held(keys) {
            Some(k) => (
                with_cpu(
                    m,
                    CpuView { v: c.v.update(c.key_register as int, k), waiting_for_key: false, ..c },
                ),
                None,
            ),
            None => (m, None),
        }
    } else if c.pc + 1 >= RAM_LENGTH {
        (m, Some(Fault::OutOfRangeAddress(first_outside(c.pc as int))))
    } else {
        let opcode = (m.mem[c.pc as int] * 0x100 + m.mem[c.pc + 1]) as u16;
        let fetched = with_cpu(m, CpuView { pc: (c.pc + 2) as u16, ..c });
        match decoded(opcode) {
            Some(op) => exec_op(fetched, keys, op, rnd),
            None => (fetched, Some(Fault::UnknownOpcode(opcode))),
        }
    }
}

/// The steps taken from `m` with the random bytes `rnds`, one per step, up to
/// and including the first that faults: the machine afterwards and the fault.
pub open spec fn steps_spec(m: Machine, keys: Seq<bool>, rnds: Seq<u8>) -> (Machine, Option<Fault>)
    decreases rnds.len(),
{
    if rnds.len() == 0 {
        (m, None)
    } else {
        let (before, fault) = steps_spec(m, keys, rnds.drop_last());
        if fault is Some {
            (before, fault)
        } else {
            step_spec(before, keys, rnds.last())
        }
    }
}

/// One 60 Hz timer event: each nonzero timer goes down by one.
pub open spec fn timers_down(c: CpuView) -> CpuView {
    CpuView {
        delay_timer: if c.delay_timer > 0 { (c.delay_timer - 1) as u8 } else { 0 },
        sound_timer: if c.sound_timer > 0 { (c.sound_timer - 1) as u8 } else { 0 },
        ..c
    }
}

/// Whether `after` and `r` are what `step_spec` gives for `before` with `rnd`.
pub open spec fn stepped(before: Machine, keys: Seq<bool>, rnd: u8, after: Machine, r: Result<(), Fault>) -> bool {
    let (m, fault) = step_spec(before, keys, rnd);
    after == m && r == as_result(fault)
}

/// Whether `after` and `r` are what `steps_spec` gives for `before`,
/// followed, when no step faulted, by one timer event.
pub open spec fn ticked(before: Machine, keys: Seq<bool>, rnds: Seq<u8>, after: Machine, r: Result<(), Fault>) -> bool {
    let (m, fault) = steps_spec(before, keys, rnds);
    r == as_result(fault) && after == if fault is Some {
        m
    } else {
        with_cpu(m, timers_down(m.cpu))
    }
}

/// Once a step has faulted, further random bytes change nothing.
pub proof fn lemma_steps_stop(m: Machine, keys: Seq<bool>, rnds: Seq<u8>, more: Seq<u8>)
    requires
        steps_spec(m, keys, rnds).1 is Some,
    ensures
        steps_spec(m, keys, rnds + more) == steps_spec(m, keys, rnds),
    decreases more.len(),
{
    if more.len() > 0 {
        lemma_steps_stop(m, keys, rnds, more.drop_last());
        assert((rnds + more).drop_last() =~= rnds + more.drop_last());
    } else {
        assert(rnds + more =~= rnds);
    }
}

/// Relies on `rand::random`: a byte drawn from the thread-local generator.
/// Nothing is assumed of its value.
#[verifier::external_body]
fn random_byte() -> u8 {
    rand::random::<u8>()
}

impl Cpu {
    /// Puts the interpreter back in its initial state.
    pub fn reset(&mut self)
        ensures
            final(self)@ == initial_cpu(),
            final(self).wf(),
    {
        let mut j: usize = 0;
        while j < NUM_REGS
            invariant
                j <= NUM_REGS,
                self.v@.len() == NUM_REGS,
                forall|k: int| 0 <= k < j ==> self.v@[k] == 0,
            decreases NUM_REGS - j,
        {
            self.v[j] = 0;
            j = j + 1;
        }
        self.pc = PROGRAM_START;
        self.i = 0;
        self.delay_timer = 0;
        self.sound_timer = 0;
        self.stack.clear();
        self.waiting_for_key = false;
        self.key_register = 0;
        assert(self@.v =~= initial_cpu().v);
        assert(self@.stack =~= initial_cpu().stack);
    }

    /// Whether the interpreter is waiting for a key.
    pub fn is_waiting_for_key(&self) -> (r: bool)
        ensures
            r == self@.waiting_for_key,
    {
        self.waiting_for_key
    }

    /// The return addresses on the call stack, the most recent last.
    pub fn stack(&self) -> (r: &[u16])
        ensures
            r@ == self@.stack,
    {
        self.stack.as_slice()
    }

    /// One step, with `rnd` as the random byte should the instruction be
    /// `Op::Random`. A pending key wait ends only here, when a poll of the
    /// keyboard finds a key held; the step that ends it executes nothing else.
    pub fn step_with<M: Memory, S: Screen, K: Keyboard>(
        &mut self,
        rnd: u8,
        ram: &mut M,
        screen: &mut S,
        keyboard: &K,
    ) -> (r: Result<(), Fault>)
        requires
            old(self).wf(),
        ensures
            final(self).wf(),
            (Machine { cpu: final(self)@, mem: final(ram).bytes(), frame: final(screen).frame() })
                == step_spec(
                (Machine { cpu: old(self)@, mem: old(ram).bytes(), frame: old(screen).frame() }),
                keyboard.held(),
                rnd,
            ).0,
            r == as_result(
                step_spec(
                    (Machine { cpu: old(self)@, mem: old(ram).bytes(), frame: old(screen).frame() }),
                    keyboard.held(),
                    rnd,
                ).1,
            ),
    {
        proof {
            ram.lemma_bytes_len();
        }
        if self.waiting_for_key {
            match keyboard.first_pressed_key() {
                Some(k) => {
                    self.v[self.key_register as usize] = k;
                    self.waiting_for_key = false;
                },
                None => {},
            }
            return Ok(());
        }
        if self.pc as usize + 1 >= RAM_LENGTH {
            return Err(Fault::OutOfRangeAddress(if self.pc as usize >= RAM_LENGTH {
                self.pc as usize
            } else {
                RAM_LENGTH
            }));
        }
        let hi = ram.read(self.pc as usize);
        let lo = ram.read(self.pc as usize + 1);
        let opcode = hi as u16 * 0x100 + lo as u16;
        self.pc = self.pc + 2;
        match decode(opcode) {
            Some(op) => self.exec(op, rnd, ram, screen, keyboard),
            None => Err(Fault::UnknownOpcode(opcode)),
        }
    }

    /// One step: resolves a pending key wait, or fetches, decodes and
    /// executes the instruction at PC. A random instruction gets a freshly
    /// drawn byte.
    pub fn step<M: Memory, S: Screen, K: Keyboard>(
        &mut self,
        ram: &mut M,
        screen: &mut S,
        keyboard: &K,
    ) -> (r: Result<(), Fault>)
        requires
            old(self).wf(),
        ensures
            final(self).wf(),
            exists|rnd: u8|
                stepped(
                    (Machine { cpu: old(self)@, mem: old(ram).bytes(), frame: old(screen).frame() }),
                    keyboard.held(),
                    rnd,
                    (Machine { cpu: final(self)@, mem: final(ram).bytes(), frame: final(screen).frame() }),
                    r,
                ),
    {
        let ghost before = Machine { cpu: self@, mem: ram.bytes(), frame: screen.frame() };
        let rnd = random_byte();
        let r = self.step_with(rnd, ram, screen, keyboard);
        assert(stepped(
            before,
            keyboard.held(),
            rnd,
            (Machine { cpu: self@, mem: ram.bytes(), frame: screen.frame() }),
            r,
        ));
        r
    }

    /// One 60 Hz timer event: each nonzero timer goes down by one.
    pub fn clock_60hz(&mut self)
        requires
            old(self).wf(),
        ensures
            final(self)@ == timers_down(old(self)@),
            final(self).wf(),
    {
        if self.delay_timer > 0 {
            self.delay_timer = self.delay_timer - 1;
        }
        if self.sound_timer > 0 {
            self.sound_timer = self.sound_timer - 1;
        }
    }

    /// `CYCLES_PER_TICK` steps, then one timer event; stops at the first
    /// fault, without the timer event.
    pub fn tick<M: Memory, S: Screen, K: Keyboard>(
        &mut self,
        ram: &mut M,
        screen: &mut S,
        keyboard: &K,
    ) -> (r: Result<(), Fault>)
        requires
            old(self).wf(),
        ensures
            final(self).wf(),
            exists|rnds: Seq<u8>|
                rnds.len() == CYCLES_PER_TICK && ticked(
                    (Machine { cpu: old(self)@, mem: old(ram).bytes(), frame: old(screen).frame() }),
                    keyboard.held(),
                    rnds,
                    (Machine { cpu: final(self)@, mem: final(ram).bytes(), frame: final(screen).frame() }),
                    r,
                ),
    {
        let ghost start = Machine { cpu: self@, mem: ram.bytes(), frame: screen.frame() };
        let ghost keys = keyboard.held();
        let ghost mut rnds: Seq<u8> = Seq::empty();
        let mut k: u64 = 0;
        while k < CYCLES_PER_TICK
            invariant
                k <= CYCLES_PER_TICK,
                self.wf(),
                keys == keyboard.held(),
                start == (Machine {
                    cpu: old(self)@,
                    mem: old(ram).bytes(),
                    frame: old(screen).frame(),
                }),
                rnds.len() == k,
                steps_spec(start, keys, rnds) == (
                    (Machine { cpu: self@, mem: ram.bytes(), frame: screen.frame() }),
                    None::<Fault>,
                ),
            decreases CYCLES_PER_TICK - k,
        {
            let ghost cur = Machine { cpu: self@, mem: ram.bytes(), frame: screen.frame() };
            let r = self.step(ram, screen, keyboard);
            let ghost now = Machine { cpu: self@, mem: ram.bytes(), frame: screen.frame() };
            let ghost rnd = choose|rnd: u8| stepped(cur, keys, rnd, now, r);
            proof {
                assert(rnds.push(rnd).drop_last() =~= rnds);
                rnds = rnds.push(rnd);
            }
            if r.is_err() {
                proof {
                    let pad = Seq::new((CYCLES_PER_TICK - k - 1) as nat, |j: int| 0u8);
                    lemma_steps_stop(start, keys, rnds, pad);
                    assert((rnds + pad).len() == CYCLES_PER_TICK && ticked(
                        start,
                        keys,
                        rnds + pad,
                        now,
                        r,
                    ));
                }
                return r;
            }
            k = k + 1;
        }
        self.clock_60hz();
        assert(ticked(
            start,
            keys,
            rnds,
            (Machine { cpu: self@, mem: ram.bytes(), frame: screen.frame() }),
            Ok(()),
        ));
        Ok(())
    }
}


/// Adding registers with carry: for any bytes `a` in Vx and `b` in Vy, with
/// Vx not the flag register, VF becomes 1 exactly when `a + b > 255` and Vx
/// becomes `(a + b) mod 256`.
pub proof fn lemma_add_with_carry(c: CpuView, x: u8, y: u8)
    requires
        c.wf(),
        x < NUM_REGS,
        y < NUM_REGS,
        x != FLAG,
    ensures
        reg_op(c, Op::AddReg { x, y }).v[FLAG as int] == if c.v[x as int] + c.v[y as int] > 255 {
            1u8
        } else {
            0u8
        },
        reg_op(c, Op::AddReg { x, y }).v[x as int] == (c.v[x as int] + c.v[y as int]) % 256,
{
}

/// Subtracting registers: for any bytes `a` in Vx and `b` in Vy, with neither
/// register the flag register, VF becomes 1 exactly when `a > b` and Vx
/// becomes `(a - b) mod 256`.
pub proof fn lemma_sub_not_borrow(c: CpuView, x: u8, y: u8)
    requires
        c.wf(),
        x < NUM_REGS,
        y < NUM_REGS,
        x != FLAG,
        y != FLAG,
    ensures
        reg_op(c, Op::SubReg { x, y }).v[FLAG as int] == if c.v[x as int] > c.v[y as int] {
            1u8
        } else {
            0u8
        },
        reg_op(c, Op::SubReg { x, y }).v[x as int] == (c.v[x as int] - c.v[y as int]) % 256,
{
}

/// Storing V0..Vx at I and then loading V0..Vx from I gives back the same
/// registers, and neither instruction faults, wherever I leaves room for them.
pub proof fn lemma_store_load_round_trip(m: Machine, keys: Seq<bool>, x: u8, rnd: u8)
    requires
        m.wf(),
        x < NUM_REGS,
        m.cpu.i + x + 1 <= RAM_LENGTH,
    ensures
        exec_op(m, keys, Op::StoreRegs { x }, rnd).1 is None,
        exec_op(exec_op(m, keys, Op::StoreRegs { x }, rnd).0, keys, Op::LoadRegs { x }, rnd).1 is None,
        exec_op(exec_op(m, keys, Op::StoreRegs { x }, rnd).0, keys, Op::LoadRegs { x }, rnd).0.cpu
            == m.cpu,
{
    let stored = exec_op(m, keys, Op::StoreRegs { x }, rnd).0;
    let loaded = exec_op(stored, keys, Op::LoadRegs { x }, rnd).0;
    assert(loaded.cpu.v =~= m.cpu.v);
}

/// An opcode whose top nibble is 0 and whose low byte is none of 0x00, 0xE0
/// and 0xEE is unknown: the step that fetches it faults with that opcode.
pub proof fn lemma_unknown_opcode(m: Machine, keys: Seq<bool>, rnd: u8)
    requires
        m.wf(),
        !m.cpu.waiting_for_key,
        m.cpu.pc + 1 < RAM_LENGTH,
        ({
            let opcode = (m.mem[m.cpu.pc as int] * 0x100 + m.mem[m.cpu.pc + 1]) as u16;
            opcode >> 12 == 0 && kk_of(opcode) != 0x00 && kk_of(opcode) != 0xE0 && kk_of(opcode) != 0xEE
        }),
    ensures
        step_spec(m, keys, rnd).1 == Some(
            Fault::UnknownOpcode((m.mem[m.cpu.pc as int] * 0x100 + m.mem[m.cpu.pc + 1]) as u16),
        ),
{
}


/// Executing the same draw instruction twice leaves the display as it was,
/// provided neither coordinate register is the flag register that the first
/// draw overwrites; and the first draw sets VF to nonzero exactly when some
/// bit of the sprite lands on a pixel that was set.
pub proof fn lemma_draw_twice_restores(m: Machine, keys: Seq<bool>, x: u8, y: u8, n: u8, rnd: u8)
    requires
        m.wf(),
        m.frame.len() == NUM_PIXELS,
        x < NUM_REGS,
        y < NUM_REGS,
        x != FLAG,
        y != FLAG,
        n < 16,
        n == 0 || m.cpu.i + n <= RAM_LENGTH,
    ensures
        exec_op(m, keys, Op::Draw { x, y, n }, rnd).1 is None,
        exec_op(exec_op(m, keys, Op::Draw { x, y, n }, rnd).0, keys, Op::Draw { x, y, n }, rnd).0.frame
            == m.frame,
        exec_op(m, keys, Op::Draw { x, y, n }, rnd).0.cpu.v[FLAG as int] != 0 <==> exists|k: int|
            0 <= k < 8 * n && #[trigger] (sprite_bits(m.mem, m.cpu.i as int, n as int)[k]
                & m.frame[sprite_target(m.cpu.v[x as int] as int, m.cpu.v[y as int] as int, k)]) != 0,
{
    let sprite = sprite_bits(m.mem, m.cpu.i as int, n as int);
    let px = m.cpu.v[x as int] as int;
    let py = m.cpu.v[y as int] as int;
    let once = exec_op(m, keys, Op::Draw { x, y, n }, rnd).0;
    assert(once.cpu.v[x as int] == m.cpu.v[x as int]);
    assert(once.cpu.v[y as int] == m.cpu.v[y as int]);
    lemma_sprite_twice_restores(m.frame, sprite, px, py);
    assert(drawn_len(sprite) == 8 * n) by (nonlinear_arith)
        requires
            sprite.len() == 8 * n,
            drawn_len(sprite) == (sprite.len() / 8) as int * 8,
    ;
    lemma_collision_iff_set_pixel_hit(m.frame, sprite, px, py);
}

} // verus!
