use vstd::prelude::*;
use vstd::arithmetic::div_mod::{lemma_fundamental_div_mod, lemma_fundamental_div_mod_converse};
use crate::cpu::{
    Cpu, CpuView, Machine, PROGRAM_START, as_result, initial_cpu, lemma_steps_stop, steps_spec,
    stepped, timers_down, with_cpu,
};
use crate::keyboard::Keyboard;
use crate::memory::{Memory, RAM_LENGTH, spliced, zeroed};
use crate::op::Fault;
use crate::screen::Screen;

verus! {

/// Instruction rate of a new machine, in instructions per second.
pub const DEFAULT_FREQUENCY: u64 = 600;

/// Rate of the timer events, per second.
pub const TIMER_FREQUENCY: u64 = 60;

/// Microseconds per second. The scheduler counts in units of a millionth of
/// an event: elapsed microseconds times a rate per second.
pub const EVENT: u128 = 1_000_000;

/// Bytes of the font table.
pub const FONT_LEN: usize = 80;

/// The 16 glyphs, 5 bytes each, of the hexadecimal digits; digit `d`'s glyph
/// lives at address `5 * d`.
pub open spec fn font() -> Seq<u8> {
    seq![
        0xf0u8, 0x90, 0x90, 0x90, 0xf0,
        0x20, 0x60, 0x20, 0x20, 0x70,
        0xf0, 0x10, 0xf0, 0x80, 0xf0,
        0xf0, 0x10, 0xf0, 0x10, 0xf0,
        0x90, 0x90, 0xf0, 0x10, 0x10,
        0xf0, 0x80, 0xf0, 0x10, 0xf0,
        0xf0, 0x80, 0xf0, 0x90, 0xf0,
        0xf0, 0x10, 0x20, 0x40, 0x40,
        0xf0, 0x90, 0xf0, 0x90, 0xf0,
        0xf0, 0x90, 0xf0, 0x10, 0xf0,
        0xf0, 0x90, 0xf0, 0x90, 0x90,
        0xe0, 0x90, 0xe0, 0x90, 0xe0,
        0xf0, 0x80, 0x80, 0x80, 0xf0,
        0xe0, 0x90, 0x90, 0x90, 0xe0,
        0xf0, 0x80, 0xf0, 0x80, 0xf0,
        0xf0, 0x80, 0xf0, 0x80, 0x80,
    ]
}

/// Memory right after a reset: zero but for the font table at address 0.
pub open spec fn boot_image() -> Seq<u8> {
    spliced(zeroed(), 0, font())
}

/// Whole events due from an accumulator holding `acc` millionths of an
/// event: events run while more than one event is pending, so once any has
/// run, what is left lies above zero and at most one event.
pub open spec fn due(acc: int) -> int {
    if acc > EVENT {
        (acc - 1) / EVENT as int
    } else {
        0
    }
}

/// What is left in the accumulator once the due events have run.
pub open spec fn left(acc: int) -> int {
    acc - due(acc) * EVENT
}

/// After `n` events have run from an accumulator at `total` and left
/// `rest`, with `rest` at most one event and above zero once any ran, `n`
/// is exactly what was due.
proof fn lemma_due_exact(total: int, n: int, rest: int)
    requires
        n >= 0,
        rest + n * EVENT == total,
        rest <= EVENT,
        n > 0 ==> rest > 0,
        rest >= 0,
    ensures
        due(total) == n,
        left(total) == rest,
{
    if n > 0 {
        lemma_fundamental_div_mod_converse(total - 1, EVENT as int, n, rest - 1);
    }
}

/// Events run while the accumulator was above one event never exceed
/// what was due.
proof fn lemma_due_bounds(total: int, n: int)
    requires
        n >= 1,
        total - n * EVENT > 0,
    ensures
        n <= due(total),
{
    let q = (total - 1) / EVENT as int;
    let r = (total - 1) % EVENT as int;
    lemma_fundamental_div_mod_converse(total - 1, EVENT as int, q, r);
    assert(n <= q) by (nonlinear_arith)
        requires
            total - 1 == q * 1_000_000 + r,
            0 <= r < 1_000_000,
            total - n * 1_000_000 > 0,
            n >= 1,
    ;
}

/// `n` timer events in a row.
pub open spec fn timers_down_n(c: CpuView, n: nat) -> CpuView
    decreases n,
{
    if n == 0 {
        c
    } else {
        timers_down(timers_down_n(c, (n - 1) as nat))
    }
}

/// Whether `after` and `r` are what running the steps with random bytes
/// `rnds` from `before` gives, followed, when no step faulted, by `events`
/// timer events.
pub open spec fn ran(
    before: Machine,
    keys: Seq<bool>,
    rnds: Seq<u8>,
    events: nat,
    after: Machine,
    r: Result<(), Fault>,
) -> bool {
    let (m, fault) = steps_spec(before, keys, rnds);
    r == as_result(fault) && after == if fault is Some {
        m
    } else {
        with_cpu(m, timers_down_n(m.cpu, events))
    }
}

/// A machine's state as values.
pub struct Chip8View {
    pub freq: u64,
    /// Pending instruction time, in millionths of an instruction.
    pub cycles: int,
    /// Pending timer time, in millionths of a timer event.
    pub timer: int,
    pub cpu: CpuView,
    pub mem: Seq<u8>,
}

/// The state a reset leaves `s` in.
pub open spec fn reset_view(s: Chip8View) -> Chip8View {
    Chip8View { freq: s.freq, cycles: 0, timer: 0, cpu: initial_cpu(), mem: boot_image() }
}

/// The whole machine: interpreter, memory and the scheduler that turns
/// elapsed time into instruction steps and 60 Hz timer events.
pub struct Chip8<M: Memory> {
    /// Instructions per second.
    pub freq: u64,
    cycles: u128,
    counter_60hz: u128,
    pub cpu: Cpu,
    pub ram: M,
}

impl<M: Memory> View for Chip8<M> {
    type V = Chip8View;

    closed spec fn view(&self) -> Chip8View {
        Chip8View {
            freq: self.freq,
            cycles: self.cycles as int,
            timer: self.counter_60hz as int,
            cpu: self.cpu@,
            mem: self.ram.bytes(),
        }
    }
}

impl<M: Memory> Chip8<M> {
    /// The interpreter holds a well-formed state and neither accumulator
    /// holds a whole event beyond the one it may be waiting to pass.
    pub closed spec fn wf(&self) -> bool {
        &&& self.cpu.wf()
        &&& self.cycles <= EVENT
        &&& self.counter_60hz <= EVENT
    }

    /// A machine around `cpu` and `ram` at the default rate, with nothing
    /// pending.
    pub fn new(cpu: Cpu, ram: M) -> (r: Self)
        requires
            cpu.wf(),
        ensures
            r.wf(),
            r@ == (Chip8View { freq: DEFAULT_FREQUENCY, cycles: 0, timer: 0, cpu: cpu@, mem: ram.bytes() }),
    {
        Chip8 { freq: DEFAULT_FREQUENCY, cycles: 0, counter_60hz: 0, cpu, ram }
    }

    /// Resets the interpreter and memory and loads the font table at
    /// address 0.
    pub fn reset(&mut self)
        ensures
            final(self).wf(),
            final(self)@ == reset_view(old(self)@),
    {
        self.cycles = 0;
        self.counter_60hz = 0;
        self.cpu.reset();
        self.ram.reset();
        self.load_font();
    }

    /// Writes the font table at address 0.
    fn load_font(&mut self)
        requires
            old(self).ram.bytes() == zeroed(),
        ensures
            final(self).ram.bytes() == boot_image(),
            final(self).cpu == old(self).cpu,
            final(self).freq == old(self).freq,
            final(self).cycles == old(self).cycles,
            final(self).counter_60hz == old(self).counter_60hz,
    {
        let glyphs: [u8; FONT_LEN] = [
            0xf0, 0x90, 0x90, 0x90, 0xf0, // 0
            0x20, 0x60, 0x20, 0x20, 0x70, // 1
            0xf0, 0x10, 0xf0, 0x80, 0xf0, // 2
            0xf0, 0x10, 0xf0, 0x10, 0xf0, // 3
            0x90, 0x90, 0xf0, 0x10, 0x10, // 4
            0xf0, 0x80, 0xf0, 0x10, 0xf0, // 5
            0xf0, 0x80, 0xf0, 0x90, 0xf0, // 6
            0xf0, 0x10, 0x20, 0x40, 0x40, // 7
            0xf0, 0x90, 0xf0, 0x90, 0xf0, // 8
            0xf0, 0x90, 0xf0, 0x10, 0xf0, // 9
            0xf0, 0x90, 0xf0, 0x90, 0x90, // A
            0xe0, 0x90, 0xe0, 0x90, 0xe0, // B
            0xf0, 0x80, 0x80, 0x80, 0xf0, // C
            0xe0, 0x90, 0x90, 0x90, 0xe0, // D
            0xf0, 0x80, 0xf0, 0x80, 0xf0, // E
            0xf0, 0x80, 0xf0, 0x80, 0x80, // F
        ];
        assert(glyphs@ =~= font());
        self.ram.write_seq(0, glyphs.as_slice());
    }

    /// Writes `rom` from the program start on; fails, changing nothing,
    /// where it does not fit in memory.
    pub fn load_rom(&mut self, rom: &[u8]) -> (r: Result<(), Fault>)
        requires
            old(self).wf(),
        ensures
            final(self).wf(),
            r is Ok <==> PROGRAM_START + rom@.len() <= RAM_LENGTH,
            r is Ok ==> final(self)@ == (Chip8View {
                mem: spliced(old(self)@.mem, PROGRAM_START as int, rom@),
                ..old(self)@
            }),
            r is Err ==> r == Err::<(), Fault>(Fault::OutOfRangeAddress(RAM_LENGTH))
                && final(self)@ == old(self)@,
    {
        if rom.len() > RAM_LENGTH - PROGRAM_START as usize {
            return Err(Fault::OutOfRangeAddress(RAM_LENGTH));
        }
        self.ram.write_seq(PROGRAM_START as usize, rom);
        Ok(())
    }

    /// Advances the machine by `elapsed_us` microseconds: adds
    /// `elapsed_us * freq` to the pending instruction time and runs one step
    /// per whole instruction due, then adds `elapsed_us * 60` to the pending
    /// timer time and runs one timer event per whole event due. The parts of
    /// an event left over carry into the next call. A fault stops the run at
    /// once, with no timer event, and drops all pending time.
    pub fn run<S: Screen, K: Keyboard>(&mut self, elapsed_us: u64, screen: &mut S, keyboard: &K) -> (r:
        Result<(), Fault>)
        requires
            old(self).wf(),
        ensures
            final(self).wf(),
            final(self)@.freq == old(self)@.freq,
            exists|rnds: Seq<u8>|
                rnds.len() == due(old(self)@.cycles + elapsed_us * old(self)@.freq) && ran(
                    (Machine { cpu: old(self)@.cpu, mem: old(self)@.mem, frame: old(screen).frame() }),
                    keyboard.held(),
                    rnds,
                    due(old(self)@.timer + elapsed_us * TIMER_FREQUENCY) as nat,
                    (Machine {
                        cpu: final(self)@.cpu,
                        mem: final(self)@.mem,
                        frame: final(screen).frame(),
                    }),
                    r,
                ),
            r is Ok ==> final(self)@.cycles == left(old(self)@.cycles + elapsed_us * old(self)@.freq)
                && final(self)@.timer == left(old(self)@.timer + elapsed_us * TIMER_FREQUENCY),
            r is Err ==> final(self)@.cycles == 0 && final(self)@.timer == 0,
    {
        let ghost start = Machine { cpu: self.cpu@, mem: self.ram.bytes(), frame: screen.frame() };
        let ghost keys = keyboard.held();
        let ghost total = self.cycles + elapsed_us * self.freq;
        let ghost timer_total = self.counter_60hz + elapsed_us * TIMER_FREQUENCY;
        assert(elapsed_us * self.freq <= 0xFFFF_FFFF_FFFF_FFFFu64 * 0xFFFF_FFFF_FFFF_FFFFu64)
            by (nonlinear_arith);
        self.cycles = self.cycles + elapsed_us as u128 * self.freq as u128;
        let ghost mut rnds: Seq<u8> = Seq::empty();
        while self.cycles > EVENT
            invariant
                self.cpu.wf(),
                self.counter_60hz <= EVENT,
                keys == keyboard.held(),
                self.freq == old(self).freq,
                total == old(self)@.cycles + elapsed_us * old(self)@.freq,
                timer_total == old(self)@.timer + elapsed_us * TIMER_FREQUENCY,
                self.counter_60hz == old(self).counter_60hz,
                start == (Machine { cpu: old(self)@.cpu, mem: old(self)@.mem, frame: old(screen).frame() }),
                self.cycles + rnds.len() * EVENT == total,
                rnds.len() > 0 ==> self.cycles > 0,
                steps_spec(start, keys, rnds) == (
                    (Machine { cpu: self.cpu@, mem: self.ram.bytes(), frame: screen.frame() }),
                    None::<Fault>,
                ),
            decreases self.cycles,
        {
            let ghost cur = Machine { cpu: self.cpu@, mem: self.ram.bytes(), frame: screen.frame() };
            let r = self.cpu.step(&mut self.ram, screen, keyboard);
            let ghost now = Machine { cpu: self.cpu@, mem: self.ram.bytes(), frame: screen.frame() };
            let ghost rnd = choose|rnd: u8| stepped(cur, keys, rnd, now, r);
            proof {
                assert(rnds.push(rnd).drop_last() =~= rnds);
                rnds = rnds.push(rnd);
            }
            if r.is_err() {
                self.cycles = 0;
                self.counter_60hz = 0;
                proof {
                    let pad = Seq::new((due(total) - rnds.len()) as nat, |j: int| 0u8);
                    lemma_due_bounds(total, rnds.len() as int);
                    lemma_steps_stop(start, keys, rnds, pad);
                    assert((rnds + pad).len() == due(total) && ran(
                        start,
                        keys,
                        rnds + pad,
                        due(timer_total) as nat,
                        now,
                        r,
                    ));
                }
                return r;
            }
            self.cycles = self.cycles - EVENT;
        }
        proof {
            lemma_due_exact(total, rnds.len() as int, self.cycles as int);
        }
        let ghost stepped_cpu = self.cpu@;
        let ghost stepped_mem = self.ram.bytes();
        self.counter_60hz = self.counter_60hz + elapsed_us as u128 * TIMER_FREQUENCY as u128;
        let ghost mut events: nat = 0;
        while self.counter_60hz > EVENT
            invariant
                self.cpu.wf(),
                self.cycles <= EVENT,
                self.cycles as int == left(total),
                total == old(self)@.cycles + elapsed_us * old(self)@.freq,
                timer_total == old(self)@.timer + elapsed_us * TIMER_FREQUENCY,
                self.counter_60hz + events * EVENT == timer_total,
                events > 0 ==> self.counter_60hz > 0,
                self.cpu@ == timers_down_n(stepped_cpu, events),
                self.ram.bytes() == stepped_mem,
                self.freq == old(self).freq,
            decreases self.counter_60hz,
        {
            self.cpu.clock_60hz();
            self.counter_60hz = self.counter_60hz - EVENT;
            proof {
                events = events + 1;
            }
        }
        proof {
            lemma_due_exact(timer_total, events as int, self.counter_60hz as int);
        }
        assert(ran(
            start,
            keys,
            rnds,
            due(timer_total) as nat,
            (Machine { cpu: self.cpu@, mem: self.ram.bytes(), frame: screen.frame() }),
            Ok(()),
        ));
        Ok(())
    }
}


/// Resetting a machine that was just reset changes nothing, and after any
/// reset memory holds the font table at addresses 0 to `FONT_LEN - 1`.
pub proof fn lemma_reset_idempotent(s: Chip8View)
    ensures
        reset_view(reset_view(s)) == reset_view(s),
        reset_view(s).mem.subrange(0, FONT_LEN as int) == font(),
{
    assert(reset_view(s).mem.subrange(0, FONT_LEN as int) =~= font());
}

/// The sum of `s`.
pub open spec fn total_of(s: Seq<u64>) -> int
    decreases s.len(),
{
    if s.len() == 0 {
        0
    } else {
        total_of(s.drop_last()) + s.last()
    }
}

/// The events that a series of `run` calls with elapsed times `elapsed`
/// lets through at `rate` events per second, from an accumulator at `acc`,
/// and what the accumulator holds afterwards.
pub open spec fn scheduled(acc: int, elapsed: Seq<u64>, rate: int) -> (int, int)
    decreases elapsed.len(),
{
    if elapsed.len() == 0 {
        (0, acc)
    } else {
        let (n, pending) = scheduled(acc, elapsed.drop_last(), rate);
        let total = pending + elapsed.last() * rate;
        (n + due(total), left(total))
    }
}

/// What is left after the due events lies between zero and one event.
proof fn lemma_left_bounds(total: int)
    requires
        total >= 0,
    ensures
        0 <= left(total) <= EVENT,
        due(total) >= 0,
{
    if total > EVENT {
        lemma_fundamental_div_mod(total - 1, EVENT as int);
        let q = (total - 1) / EVENT as int;
        assert(q >= 0) by (nonlinear_arith)
            requires
                total - 1 == 1_000_000 * q + (total - 1) % 1_000_000,
                0 <= (total - 1) % 1_000_000 < 1_000_000,
                total > 1_000_000,
        ;
    }
}

/// Over any series of `run` calls that start with nothing pending, the
/// events let through, counted in millionths, plus what is still pending
/// equal exactly the total elapsed time times the rate, and no more than one
/// event is ever pending; so the events number `total * rate / 1_000_000`
/// rounded down, or one less.
pub proof fn lemma_schedule_tracks_rate(elapsed: Seq<u64>, rate: u64)
    ensures
        scheduled(0, elapsed, rate as int).0 * EVENT + scheduled(0, elapsed, rate as int).1
            == total_of(elapsed) * rate,
        0 <= scheduled(0, elapsed, rate as int).1 <= EVENT,
        scheduled(0, elapsed, rate as int).0 <= total_of(elapsed) * rate / EVENT as int
            <= scheduled(0, elapsed, rate as int).0 + 1,
    decreases elapsed.len(),
{
    let (n, pending) = scheduled(0, elapsed, rate as int);
    if elapsed.len() > 0 {
        let init = elapsed.drop_last();
        lemma_schedule_tracks_rate(init, rate);
        let (n0, p0) = scheduled(0, init, rate as int);
        let e = elapsed.last();
        let total = p0 + e * rate;
        assert(e * rate >= 0) by (nonlinear_arith)
            requires
                e >= 0,
                rate >= 0,
        ;
        lemma_left_bounds(total);
        assert(total_of(elapsed) * rate == total_of(init) * rate + e * rate) by (nonlinear_arith)
            requires
                total_of(elapsed) == total_of(init) + e,
        ;
        assert(n * EVENT == n0 * EVENT + due(total) * EVENT) by (nonlinear_arith)
            requires
                n == n0 + due(total),
        ;
    }
    let s = total_of(elapsed) * rate;
    if pending < EVENT {
        lemma_fundamental_div_mod_converse(s, EVENT as int, n, pending);
    } else {
        lemma_fundamental_div_mod_converse(s, EVENT as int, n + 1, 0);
    }
}


/// `n` timer events take each timer down by `n`, stopping at zero, and
/// change nothing else.
pub proof fn lemma_timers_down_n(c: CpuView, n: nat)
    ensures
        timers_down_n(c, n).delay_timer == if c.delay_timer > n {
            c.delay_timer - n
        } else {
            0
        },
        timers_down_n(c, n).sound_timer == if c.sound_timer > n {
            c.sound_timer - n
        } else {
            0
        },
        timers_down_n(c, n) == (CpuView {
            delay_timer: timers_down_n(c, n).delay_timer,
            sound_timer: timers_down_n(c, n).sound_timer,
            ..c
        }),
    decreases n,
{
    if n > 0 {
        lemma_timers_down_n(c, (n - 1) as nat);
    }
}

} // verus!
