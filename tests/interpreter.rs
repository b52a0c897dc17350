use chipers::cpu::Cpu;
use chipers::keyboard::SimpleKeyboard;
use chipers::memory::{Memory, RAM};
use chipers::op::{decode, Fault, Op};
use chipers::screen::{PixelScreen, SCREEN_WIDTH};

struct Rig {
    cpu: Cpu,
    ram: RAM,
    screen: PixelScreen,
    kb: SimpleKeyboard,
}

fn rig() -> Rig {
    Rig { cpu: Cpu::new(), ram: RAM::new(), screen: PixelScreen::new(), kb: SimpleKeyboard::new() }
}

impl Rig {
    fn exec(&mut self, op: Op) -> Result<(), Fault> {
        self.cpu.exec(op, 0, &mut self.ram, &mut self.screen, &self.kb)
    }

    fn step(&mut self) -> Result<(), Fault> {
        self.cpu.step(&mut self.ram, &mut self.screen, &self.kb)
    }

    fn program(&mut self, bytes: &[u8]) {
        self.ram.write_seq(0x200, bytes);
    }
}

#[test]
fn decode_table() {
    assert_eq!(decode(0x0000), Some(Op::Nop));
    assert_eq!(decode(0x00E0), Some(Op::ClearScreen));
    assert_eq!(decode(0x00EE), Some(Op::Return));
    assert_eq!(decode(0x1ABC), Some(Op::Jump { addr: 0xABC }));
    assert_eq!(decode(0x2ABC), Some(Op::Call { addr: 0xABC }));
    assert_eq!(decode(0x3A42), Some(Op::SkipEqImm { x: 0xA, kk: 0x42 }));
    assert_eq!(decode(0x4A42), Some(Op::SkipNeImm { x: 0xA, kk: 0x42 }));
    assert_eq!(decode(0x5AB0), Some(Op::SkipEqReg { x: 0xA, y: 0xB }));
    assert_eq!(decode(0x6A42), Some(Op::LoadImm { x: 0xA, kk: 0x42 }));
    assert_eq!(decode(0x7A42), Some(Op::AddImm { x: 0xA, kk: 0x42 }));
    assert_eq!(decode(0x8AB0), Some(Op::Move { x: 0xA, y: 0xB }));
    assert_eq!(decode(0x8AB1), Some(Op::Or { x: 0xA, y: 0xB }));
    assert_eq!(decode(0x8AB2), Some(Op::And { x: 0xA, y: 0xB }));
    assert_eq!(decode(0x8AB3), Some(Op::Xor { x: 0xA, y: 0xB }));
    assert_eq!(decode(0x8AB4), Some(Op::AddReg { x: 0xA, y: 0xB }));
    assert_eq!(decode(0x8AB5), Some(Op::SubReg { x: 0xA, y: 0xB }));
    assert_eq!(decode(0x8AB6), Some(Op::ShiftRight { x: 0xA }));
    assert_eq!(decode(0x8AB7), Some(Op::SubnReg { x: 0xA, y: 0xB }));
    assert_eq!(decode(0x8ABE), Some(Op::ShiftLeft { x: 0xA }));
    assert_eq!(decode(0x9AB0), Some(Op::SkipNeReg { x: 0xA, y: 0xB }));
    assert_eq!(decode(0xA123), Some(Op::LoadIndex { addr: 0x123 }));
    assert_eq!(decode(0xB123), Some(Op::JumpOffset { addr: 0x123 }));
    assert_eq!(decode(0xC10F), Some(Op::Random { x: 1, kk: 0x0F }));
    assert_eq!(decode(0xD125), Some(Op::Draw { x: 1, y: 2, n: 5 }));
    assert_eq!(decode(0xE19E), Some(Op::SkipKeyDown { x: 1 }));
    assert_eq!(decode(0xE1A1), Some(Op::SkipKeyUp { x: 1 }));
    assert_eq!(decode(0xF107), Some(Op::LoadDelay { x: 1 }));
    assert_eq!(decode(0xF10A), Some(Op::WaitKey { x: 1 }));
    assert_eq!(decode(0xF115), Some(Op::SetDelay { x: 1 }));
    assert_eq!(decode(0xF118), Some(Op::SetSound { x: 1 }));
    assert_eq!(decode(0xF11E), Some(Op::AddIndex { x: 1 }));
    assert_eq!(decode(0xF129), Some(Op::LoadGlyph { x: 1 }));
    assert_eq!(decode(0xF133), Some(Op::StoreBcd { x: 1 }));
    assert_eq!(decode(0xF155), Some(Op::StoreRegs { x: 1 }));
    assert_eq!(decode(0xF165), Some(Op::LoadRegs { x: 1 }));
}

#[test]
fn decode_unknown_opcodes() {
    for opcode in [0x0123u16, 0x00E1, 0x00FF, 0x8AB8, 0x8ABF, 0xE100, 0xF100, 0xF1FF] {
        assert_eq!(decode(opcode), None);
    }
}

#[test]
fn add_with_carry() {
    for (a, b, sum, carry) in [(200u8, 100u8, 44u8, 1u8), (1, 2, 3, 0), (255, 1, 0, 1), (128, 127, 255, 0)] {
        let mut r = rig();
        r.cpu.v[3] = a;
        r.cpu.v[4] = b;
        r.exec(Op::AddReg { x: 3, y: 4 }).unwrap();
        assert_eq!(r.cpu.v[3], sum);
        assert_eq!(r.cpu.v[0xF], carry);
    }
}

#[test]
fn subtract_not_borrow() {
    for (a, b, diff, flag) in [(10u8, 3u8, 7u8, 1u8), (3, 10, 249, 0), (5, 5, 0, 0), (0, 255, 1, 0)] {
        let mut r = rig();
        r.cpu.v[1] = a;
        r.cpu.v[2] = b;
        r.exec(Op::SubReg { x: 1, y: 2 }).unwrap();
        assert_eq!(r.cpu.v[1], diff);
        assert_eq!(r.cpu.v[0xF], flag);
    }
}

#[test]
fn subn_stores_into_vy() {
    let mut r = rig();
    r.cpu.v[1] = 3;
    r.cpu.v[2] = 10;
    r.exec(Op::SubnReg { x: 1, y: 2 }).unwrap();
    assert_eq!(r.cpu.v[2], 7);
    assert_eq!(r.cpu.v[1], 3);
    assert_eq!(r.cpu.v[0xF], 1);
}

#[test]
fn shifts_set_flag_from_lost_bit() {
    let mut r = rig();
    r.cpu.v[1] = 0b1000_0011;
    r.exec(Op::ShiftRight { x: 1 }).unwrap();
    assert_eq!(r.cpu.v[1], 0b0100_0001);
    assert_eq!(r.cpu.v[0xF], 1);
    r.exec(Op::ShiftLeft { x: 1 }).unwrap();
    assert_eq!(r.cpu.v[1], 0b1000_0010);
    assert_eq!(r.cpu.v[0xF], 0);
    r.exec(Op::ShiftLeft { x: 1 }).unwrap();
    assert_eq!(r.cpu.v[1], 0b0000_0100);
    assert_eq!(r.cpu.v[0xF], 1);
}

#[test]
fn logic_and_immediates() {
    let mut r = rig();
    r.exec(Op::LoadImm { x: 0, kk: 0b1100 }).unwrap();
    r.exec(Op::LoadImm { x: 1, kk: 0b1010 }).unwrap();
    r.exec(Op::Move { x: 2, y: 0 }).unwrap();
    r.exec(Op::Or { x: 2, y: 1 }).unwrap();
    assert_eq!(r.cpu.v[2], 0b1110);
    r.exec(Op::Move { x: 2, y: 0 }).unwrap();
    r.exec(Op::And { x: 2, y: 1 }).unwrap();
    assert_eq!(r.cpu.v[2], 0b1000);
    r.exec(Op::Move { x: 2, y: 0 }).unwrap();
    r.exec(Op::Xor { x: 2, y: 1 }).unwrap();
    assert_eq!(r.cpu.v[2], 0b0110);
    r.exec(Op::LoadImm { x: 5, kk: 250 }).unwrap();
    r.exec(Op::AddImm { x: 5, kk: 10 }).unwrap();
    assert_eq!(r.cpu.v[5], 4);
    assert_eq!(r.cpu.v[0xF], 0);
}

#[test]
fn store_then_load_registers_round_trip() {
    let mut r = rig();
    let values: [u8; 16] = [9, 8, 7, 6, 5, 4, 3, 2, 1, 0, 255, 128, 64, 32, 16, 1];
    r.cpu.v = values;
    r.cpu.i = 0x300;
    r.exec(Op::StoreRegs { x: 15 }).unwrap();
    assert_eq!(&r.ram.read_all()[0x300..0x310], &values[..]);
    r.cpu.v = [0; 16];
    r.exec(Op::LoadRegs { x: 15 }).unwrap();
    assert_eq!(r.cpu.v, values);
}

#[test]
fn store_and_load_stop_at_vx() {
    let mut r = rig();
    r.cpu.v = [1; 16];
    r.cpu.i = 0x400;
    r.exec(Op::StoreRegs { x: 2 }).unwrap();
    assert_eq!(&r.ram.read_all()[0x400..0x404], &[1, 1, 1, 0]);
    r.ram.write(0x403, 77);
    r.cpu.v = [0; 16];
    r.exec(Op::LoadRegs { x: 3 }).unwrap();
    assert_eq!(&r.cpu.v[..5], &[1, 1, 1, 77, 0]);
}

#[test]
fn bcd_of_156() {
    let mut r = rig();
    r.cpu.v[4] = 156;
    r.cpu.i = 0x300;
    r.exec(Op::StoreBcd { x: 4 }).unwrap();
    assert_eq!(&r.ram.read_all()[0x300..0x303], &[1, 5, 6]);
}

#[test]
fn jump_with_offset() {
    let mut r = rig();
    r.cpu.v[0] = 5;
    r.program(&[0xB3, 0x00]);
    r.step().unwrap();
    assert_eq!(r.cpu.pc, 0x305);
}

#[test]
fn unknown_opcode_is_fatal() {
    let mut r = rig();
    r.program(&[0x01, 0x23]);
    assert_eq!(r.step(), Err(Fault::UnknownOpcode(0x0123)));
}

#[test]
fn return_with_empty_stack_is_fatal() {
    let mut r = rig();
    r.program(&[0x00, 0xEE]);
    assert_eq!(r.step(), Err(Fault::StackUnderflow));
}

#[test]
fn call_and_return() {
    let mut r = rig();
    r.program(&[0x23, 0x00]);
    r.ram.write_seq(0x300, &[0x00, 0xEE]);
    r.step().unwrap();
    assert_eq!(r.cpu.pc, 0x300);
    assert_eq!(r.cpu.stack(), &[0x202]);
    r.step().unwrap();
    assert_eq!(r.cpu.pc, 0x202);
    assert!(r.cpu.stack().is_empty());
}

#[test]
fn out_of_range_addresses_are_fatal() {
    let mut r = rig();
    r.cpu.i = 0xFFF;
    assert_eq!(r.exec(Op::Draw { x: 0, y: 0, n: 2 }), Err(Fault::OutOfRangeAddress(0x1000)));
    r.cpu.i = 0xFFE;
    assert_eq!(r.exec(Op::StoreBcd { x: 0 }), Err(Fault::OutOfRangeAddress(0x1000)));
    r.cpu.i = 0xFFA;
    assert_eq!(r.exec(Op::StoreRegs { x: 15 }), Err(Fault::OutOfRangeAddress(0x1000)));
    assert_eq!(r.exec(Op::LoadRegs { x: 15 }), Err(Fault::OutOfRangeAddress(0x1000)));
    r.cpu.i = 0xFFFF;
    assert_eq!(r.exec(Op::StoreBcd { x: 0 }), Err(Fault::OutOfRangeAddress(0xFFFF)));
    r.cpu.pc = 0xFFF;
    assert_eq!(r.step(), Err(Fault::OutOfRangeAddress(0x1000)));
}

#[test]
fn skips() {
    let mut r = rig();
    r.cpu.v[1] = 7;
    r.cpu.v[2] = 7;
    r.exec(Op::SkipEqImm { x: 1, kk: 7 }).unwrap();
    assert_eq!(r.cpu.pc, 0x202);
    r.exec(Op::SkipNeImm { x: 1, kk: 7 }).unwrap();
    assert_eq!(r.cpu.pc, 0x202);
    r.exec(Op::SkipEqReg { x: 1, y: 2 }).unwrap();
    assert_eq!(r.cpu.pc, 0x204);
    r.exec(Op::SkipNeReg { x: 1, y: 2 }).unwrap();
    assert_eq!(r.cpu.pc, 0x204);
    r.kb.press_key(7);
    r.exec(Op::SkipKeyDown { x: 1 }).unwrap();
    assert_eq!(r.cpu.pc, 0x206);
    r.exec(Op::SkipKeyUp { x: 1 }).unwrap();
    assert_eq!(r.cpu.pc, 0x206);
    r.kb.release_key(7);
    r.exec(Op::SkipKeyUp { x: 1 }).unwrap();
    assert_eq!(r.cpu.pc, 0x208);
}

#[test]
fn timers_and_index() {
    let mut r = rig();
    r.cpu.v[1] = 42;
    r.exec(Op::SetDelay { x: 1 }).unwrap();
    r.exec(Op::SetSound { x: 1 }).unwrap();
    assert_eq!(r.cpu.delay_timer, 42);
    assert_eq!(r.cpu.sound_timer, 42);
    r.exec(Op::LoadDelay { x: 2 }).unwrap();
    assert_eq!(r.cpu.v[2], 42);
    r.exec(Op::LoadIndex { addr: 0x123 }).unwrap();
    assert_eq!(r.cpu.i, 0x123);
    r.cpu.v[3] = 0xB;
    r.exec(Op::LoadGlyph { x: 3 }).unwrap();
    assert_eq!(r.cpu.i, 55);
    r.cpu.i = 0xFFF0;
    r.cpu.v[4] = 0x20;
    r.exec(Op::AddIndex { x: 4 }).unwrap();
    assert_eq!(r.cpu.i, 0x0010);
    assert_eq!(r.cpu.v[0xF], 1);
    r.exec(Op::AddIndex { x: 4 }).unwrap();
    assert_eq!(r.cpu.i, 0x0030);
    assert_eq!(r.cpu.v[0xF], 0);
}

#[test]
fn random_masks_the_drawn_byte() {
    let mut r = rig();
    r.cpu.exec(Op::Random { x: 1, kk: 0x0F }, 0xAB, &mut r.ram, &mut r.screen, &r.kb).unwrap();
    assert_eq!(r.cpu.v[1], 0x0B);
    let mut r = rig();
    r.program(&[0xC2, 0xF0]);
    r.cpu.step_with(0x5A, &mut r.ram, &mut r.screen, &r.kb).unwrap();
    assert_eq!(r.cpu.v[2], 0x50);
}

#[test]
fn random_draws_stay_within_mask() {
    let mut r = rig();
    for _ in 0..50 {
        r.cpu.pc = 0x200;
        r.program(&[0xC3, 0x07]);
        r.step().unwrap();
        assert!(r.cpu.v[3] <= 7);
    }
    let mut r = rig();
    r.program(&[0xC3, 0x00]);
    r.cpu.v[3] = 9;
    r.step().unwrap();
    assert_eq!(r.cpu.v[3], 0);
}

#[test]
fn draw_reads_sprite_and_sets_collision() {
    let mut r = rig();
    r.ram.write_seq(0x300, &[0b1000_0001, 0b0100_0000]);
    r.cpu.i = 0x300;
    r.cpu.v[1] = 2;
    r.cpu.v[2] = 3;
    r.exec(Op::Draw { x: 1, y: 2, n: 2 }).unwrap();
    let px = r.screen.pixels();
    assert_eq!(px[3 * SCREEN_WIDTH + 2], 1);
    assert_eq!(px[3 * SCREEN_WIDTH + 9], 1);
    assert_eq!(px[3 * SCREEN_WIDTH + 3], 0);
    assert_eq!(px[4 * SCREEN_WIDTH + 3], 1);
    assert_eq!(r.cpu.v[0xF], 0);
    r.exec(Op::Draw { x: 1, y: 2, n: 2 }).unwrap();
    assert_eq!(r.cpu.v[0xF], 1);
    assert!(r.screen.pixels().iter().all(|p| *p == 0));
    r.exec(Op::Draw { x: 1, y: 2, n: 1 }).unwrap();
    r.exec(Op::ClearScreen).unwrap();
    assert!(r.screen.pixels().iter().all(|p| *p == 0));
}

#[test]
fn wait_for_key_polls_each_step() {
    let mut r = rig();
    r.program(&[0xF5, 0x0A, 0x00, 0x00]);
    r.step().unwrap();
    assert!(r.cpu.is_waiting_for_key());
    assert_eq!(r.cpu.pc, 0x202);
    r.step().unwrap();
    assert!(r.cpu.is_waiting_for_key());
    assert_eq!(r.cpu.pc, 0x202);
    r.kb.press_key(0xC);
    r.kb.press_key(0x9);
    r.step().unwrap();
    assert!(!r.cpu.is_waiting_for_key());
    assert_eq!(r.cpu.v[5], 0x9);
    assert_eq!(r.cpu.pc, 0x202);
    r.step().unwrap();
    assert_eq!(r.cpu.pc, 0x204);
}

#[test]
fn clock_60hz_stops_at_zero() {
    let mut r = rig();
    r.cpu.delay_timer = 1;
    r.cpu.sound_timer = 0;
    r.cpu.clock_60hz();
    assert_eq!(r.cpu.delay_timer, 0);
    assert_eq!(r.cpu.sound_timer, 0);
    r.cpu.clock_60hz();
    assert_eq!(r.cpu.delay_timer, 0);
}

#[test]
fn cpu_reset_restores_initial_state() {
    let mut r = rig();
    r.program(&[0x23, 0x00, 0xF1, 0x0A]);
    r.ram.write_seq(0x300, &[0xF1, 0x0A]);
    r.step().unwrap();
    r.step().unwrap();
    r.cpu.v[3] = 9;
    r.cpu.i = 77;
    r.cpu.delay_timer = 3;
    r.cpu.reset();
    assert_eq!(r.cpu.pc, 0x200);
    assert_eq!(r.cpu.v, [0; 16]);
    assert_eq!(r.cpu.i, 0);
    assert_eq!(r.cpu.delay_timer, 0);
    assert!(r.cpu.stack().is_empty());
    assert!(!r.cpu.is_waiting_for_key());
}

#[test]
fn empty_sprite_draws_nothing_wherever_i_points() {
    let mut r = rig();
    r.cpu.i = 0xFFFF;
    r.cpu.v[0xF] = 1;
    r.exec(Op::Draw { x: 0, y: 0, n: 0 }).unwrap();
    assert_eq!(r.cpu.v[0xF], 0);
    assert!(r.screen.pixels().iter().all(|p| *p == 0));
}
