use chipers::chip8::{Chip8, DEFAULT_FREQUENCY};
use chipers::cpu::{Cpu, CYCLES_PER_TICK};
use chipers::keyboard::SimpleKeyboard;
use chipers::memory::{Memory, WatchedRAM, RAM};
use chipers::op::Fault;
use chipers::screen::PixelScreen;

const FONT: [u8; 80] = [
    0xf0, 0x90, 0x90, 0x90, 0xf0, 0x20, 0x60, 0x20, 0x20, 0x70, 0xf0, 0x10, 0xf0, 0x80, 0xf0,
    0xf0, 0x10, 0xf0, 0x10, 0xf0, 0x90, 0x90, 0xf0, 0x10, 0x10, 0xf0, 0x80, 0xf0, 0x10, 0xf0,
    0xf0, 0x80, 0xf0, 0x90, 0xf0, 0xf0, 0x10, 0x20, 0x40, 0x40, 0xf0, 0x90, 0xf0, 0x90, 0xf0,
    0xf0, 0x90, 0xf0, 0x10, 0xf0, 0xf0, 0x90, 0xf0, 0x90, 0x90, 0xe0, 0x90, 0xe0, 0x90, 0xe0,
    0xf0, 0x80, 0x80, 0x80, 0xf0, 0xe0, 0x90, 0x90, 0x90, 0xe0, 0xf0, 0x80, 0xf0, 0x80, 0xf0,
    0xf0, 0x80, 0xf0, 0x80, 0x80,
];

fn looping_machine() -> Chip8<WatchedRAM> {
    let mut m = Chip8::new(Cpu::new(), WatchedRAM::new());
    m.reset();
    // 0x200: jump to 0x200
    m.load_rom(&[0x12, 0x00]).unwrap();
    m.ram.reset_reads_writes();
    m
}

#[test]
fn reset_loads_font_and_is_idempotent() {
    let mut m = Chip8::new(Cpu::new(), RAM::new());
    m.ram.write(0x10, 0xAA);
    m.ram.write(0x900, 0xBB);
    m.cpu.v[2] = 5;
    m.reset();
    assert_eq!(&m.ram.read_all()[..80], &FONT[..]);
    assert!(m.ram.read_all()[80..].iter().all(|b| *b == 0));
    assert_eq!(m.cpu.pc, 0x200);
    assert_eq!(m.cpu.v, [0; 16]);
    let first: Vec<u8> = m.ram.read_all().to_vec();
    m.reset();
    assert_eq!(m.ram.read_all(), &first[..]);
    assert_eq!(m.cpu.pc, 0x200);
}

#[test]
fn glyph_address_points_at_font() {
    let mut m = Chip8::new(Cpu::new(), RAM::new());
    m.reset();
    // V1 := 7; I := glyph of V1
    m.load_rom(&[0x61, 0x07, 0xF1, 0x29]).unwrap();
    let mut screen = PixelScreen::new();
    let kb = SimpleKeyboard::new();
    m.cpu.step(&mut m.ram, &mut screen, &kb).unwrap();
    m.cpu.step(&mut m.ram, &mut screen, &kb).unwrap();
    assert_eq!(m.cpu.i, 35);
    assert_eq!(&m.ram.read_all()[35..40], &[0xf0, 0x10, 0x20, 0x40, 0x40]);
}

#[test]
fn load_rom_places_program_at_0x200() {
    let mut m = Chip8::new(Cpu::new(), RAM::new());
    m.reset();
    m.load_rom(&[1, 2, 3]).unwrap();
    assert_eq!(&m.ram.read_all()[0x1FF..0x204], &[0, 1, 2, 3, 0]);
    let largest = vec![7u8; 0x1000 - 0x200];
    assert!(m.load_rom(&largest).is_ok());
    assert_eq!(m.ram.read_all()[0xFFF], 7);
}

#[test]
fn load_rom_too_large_is_refused() {
    let mut m = Chip8::new(Cpu::new(), RAM::new());
    m.reset();
    let rom = vec![7u8; 0x1000 - 0x200 + 1];
    assert_eq!(m.load_rom(&rom), Err(Fault::OutOfRangeAddress(0x1000)));
    assert_eq!(m.ram.read_all()[0x200], 0);
}

#[test]
fn new_machine_runs_at_default_frequency() {
    let m = Chip8::new(Cpu::new(), RAM::new());
    assert_eq!(m.freq, DEFAULT_FREQUENCY);
    assert_eq!(m.freq, 600);
}

#[test]
fn run_accumulates_fractional_steps_and_timer_events() {
    let mut m = looping_machine();
    m.cpu.delay_timer = 100;
    m.cpu.sound_timer = 30;
    let mut screen = PixelScreen::new();
    let kb = SimpleKeyboard::new();
    for _ in 0..60 {
        m.run(16_667, &mut screen, &kb).unwrap();
    }
    // Every step fetches the jump at 0x200.
    assert_eq!(m.ram.reads[0x200], 600);
    assert_eq!(m.cpu.delay_timer, 40);
    assert_eq!(m.cpu.sound_timer, 0);
}

#[test]
fn run_carries_remainders_across_calls() {
    let mut m = looping_machine();
    m.cpu.delay_timer = 10;
    let mut screen = PixelScreen::new();
    let kb = SimpleKeyboard::new();
    // 1 ms at 600 Hz is 0.6 of a step: 0.6 pending, then 1.2 (one step
    // runs, 0.2 stays), then 0.8.
    m.run(1_000, &mut screen, &kb).unwrap();
    assert_eq!(m.ram.reads[0x200], 0);
    m.run(1_000, &mut screen, &kb).unwrap();
    assert_eq!(m.ram.reads[0x200], 1);
    m.run(1_000, &mut screen, &kb).unwrap();
    assert_eq!(m.ram.reads[0x200], 1);
    assert_eq!(m.cpu.delay_timer, 10);
    // A whole second at once: 600 steps and 60 timer events are due, less
    // the one each accumulator keeps back.
    m.run(1_000_000, &mut screen, &kb).unwrap();
    assert_eq!(m.ram.reads[0x200], 601);
    assert_eq!(m.cpu.delay_timer, 0);
}

#[test]
fn run_follows_configured_frequency() {
    let mut m = looping_machine();
    m.freq = 1000;
    let mut screen = PixelScreen::new();
    let kb = SimpleKeyboard::new();
    for _ in 0..10 {
        m.run(10_000, &mut screen, &kb).unwrap();
    }
    assert_eq!(m.ram.reads[0x200], 99);
    m.run(1, &mut screen, &kb).unwrap();
    assert_eq!(m.ram.reads[0x200], 100);
}

#[test]
fn run_stops_at_fault() {
    let mut m = Chip8::new(Cpu::new(), RAM::new());
    m.reset();
    // V0 := 1, then an unknown opcode.
    m.load_rom(&[0x60, 0x01, 0x01, 0x23, 0x60, 0x02]).unwrap();
    m.cpu.delay_timer = 5;
    let mut screen = PixelScreen::new();
    let kb = SimpleKeyboard::new();
    assert_eq!(m.run(100_000, &mut screen, &kb), Err(Fault::UnknownOpcode(0x0123)));
    assert_eq!(m.cpu.v[0], 1);
    assert_eq!(m.cpu.delay_timer, 5);
}

#[test]
fn tick_runs_fixed_steps_then_timers() {
    let mut m = looping_machine();
    m.cpu.delay_timer = 100;
    m.cpu.sound_timer = 30;
    let mut screen = PixelScreen::new();
    let kb = SimpleKeyboard::new();
    for _ in 0..60 {
        m.cpu.tick(&mut m.ram, &mut screen, &kb).unwrap();
    }
    assert_eq!(CYCLES_PER_TICK, 10);
    assert_eq!(m.ram.reads[0x200], 600);
    assert_eq!(m.ram.reads[0x201], 600);
    assert_eq!(m.cpu.delay_timer, 40);
    assert_eq!(m.cpu.sound_timer, 0);
}

#[test]
fn tick_stops_at_fault_without_timer_event() {
    let mut m = Chip8::new(Cpu::new(), RAM::new());
    m.reset();
    m.load_rom(&[0x00, 0xEE]).unwrap();
    m.cpu.delay_timer = 5;
    let mut screen = PixelScreen::new();
    let kb = SimpleKeyboard::new();
    assert_eq!(m.cpu.tick(&mut m.ram, &mut screen, &kb), Err(Fault::StackUnderflow));
    assert_eq!(m.cpu.delay_timer, 5);
}
