use chip8::graphics::Point;
use chip8::keypad::keynum_for_keycode;
use chip8::keypad::KEY_1;
use chip8::keypad::KEY_4;
use chip8::keypad::KEY_Q;
use chip8::keypad::KEY_V;
use chip8::keypad::KEY_X;
use chip8::machine::addr;
use chip8::machine::val;
use chip8::machine::ClockFault;
use chip8::machine::Compy;
use chip8::machine::DrawOp;
use chip8::machine::Fault;
use rand::rngs::StdRng;
use rand::SeedableRng;

const FONT: [u8; 80] = [
    0xF0, 0x90, 0x90, 0x90, 0xF0, 0x20, 0x60, 0x20, 0x20, 0x70, 0xF0, 0x10, 0xF0, 0x80, 0xF0, 0xF0,
    0x10, 0xF0, 0x10, 0xF0, 0x90, 0x90, 0xF0, 0x10, 0x10, 0xF0, 0x80, 0xF0, 0x10, 0xF0, 0xF0, 0x80,
    0xF0, 0x90, 0xF0, 0xF0, 0x10, 0x20, 0x40, 0x40, 0xF0, 0x90, 0xF0, 0x90, 0xF0, 0xF0, 0x90, 0xF0,
    0x10, 0xF0, 0xF0, 0x90, 0xF0, 0x90, 0x90, 0xE0, 0x90, 0xE0, 0x90, 0xE0, 0xF0, 0x80, 0x80, 0x80,
    0xF0, 0xE0, 0x90, 0x90, 0x90, 0xE0, 0xF0, 0x80, 0xF0, 0x80, 0xF0, 0xF0, 0x80, 0xF0, 0x80, 0x80,
];

fn machine_from(start: u128) -> Compy {
    Compy::with_start_time(start, StdRng::seed_from_u64(7))
}

fn machine() -> Compy {
    machine_from(0)
}

fn lit_count(c: &Compy) -> usize {
    c.gfx.pixel_sets().0.len()
}

#[test]
fn fresh_machine_state() {
    let c = machine_from(1234);
    assert_eq!(c.pc, 0x200);
    assert_eq!(c.i, 0);
    assert_eq!(c.sp, 0);
    assert_eq!(c.reg, [0; 16]);
    assert_eq!(c.stack, [0; 16]);
    assert_eq!(c.keys, [false; 16]);
    assert_eq!(c.key_buffer, None);
    assert_eq!(c.delay_timer, 0);
    assert_eq!(c.sound_timer, 0);
    assert_eq!(c.start_time_micros, 1234);
    assert_eq!(c.latest_time_micros, 1234);
    assert!(!c.draw_flag);
    assert!(c.draw_ops.is_empty());
    assert_eq!(&c.memory[0x50..0xA0], &FONT[..]);
    assert!(c.memory[..0x50].iter().all(|b| *b == 0));
    assert!(c.memory[0xA0..].iter().all(|b| *b == 0));
    assert_eq!(lit_count(&c), 0);
}

#[test]
fn new_reads_the_clock() {
    let c = Compy::new().unwrap();
    assert!(c.start_time_micros > 0);
    assert_eq!(c.start_time_micros, c.latest_time_micros);
    assert_eq!(c.pc, 0x200);
    assert_eq!(&c.memory[0x50..0xA0], &FONT[..]);
}

#[test]
fn addr_and_val_join_nibbles() {
    assert_eq!(addr(0x1, 0x2, 0x3), 0x123);
    assert_eq!(addr(0xF, 0xF, 0xF), 0xFFF);
    assert_eq!(addr(0x12, 0x0, 0x0), 0x1200);
    assert_eq!(val(0xA, 0xB), 0xAB);
    assert_eq!(val(0x1F, 0x2), 0xF2);
    assert_eq!(val(0x0, 0x0), 0x00);
}

#[test]
fn keypad_layout() {
    assert_eq!(keynum_for_keycode(KEY_1), Some(0x1));
    assert_eq!(keynum_for_keycode(KEY_4), Some(0xC));
    assert_eq!(keynum_for_keycode(KEY_Q), Some(0x4));
    assert_eq!(keynum_for_keycode(KEY_X), Some(0x0));
    assert_eq!(keynum_for_keycode(KEY_V), Some(0xF));
    assert_eq!(keynum_for_keycode(27), None);
    assert_eq!(keynum_for_keycode(0), None);
}

#[test]
fn keypad_layout_is_one_to_one() {
    let codes = [49, 50, 51, 52, 113, 119, 101, 114, 97, 115, 100, 102, 122, 120, 99, 118];
    let mut seen = [false; 16];
    for code in codes {
        let k = keynum_for_keycode(code).unwrap() as usize;
        assert!(k < 16);
        assert!(!seen[k]);
        seen[k] = true;
    }
    assert!(seen.iter().all(|s| *s));
}

#[test]
fn op_00e0_clears_display() {
    let mut c = machine();
    c.gfx.draw_sprite(0, 0, &[0xFF]);
    c.run_op_with(0x00E0, 0);
    assert_eq!(lit_count(&c), 0);
    assert_eq!(c.pc, 0x202);
    assert!(matches!(c.draw_ops.last(), Some(DrawOp::Clear)));
}

#[test]
fn op_00ee_returns() {
    let mut c = machine();
    c.sp = 1;
    c.stack[0] = 0x345;
    c.run_op_with(0x00EE, 0);
    assert_eq!(c.pc, 0x345);
    assert_eq!(c.sp, 0);
}

#[test]
fn op_1nnn_jumps() {
    let mut c = machine();
    c.run_op_with(0x1ABC, 0);
    assert_eq!(c.pc, 0xABC);
}

#[test]
fn op_2nnn_calls() {
    let mut c = machine();
    c.run_op_with(0x2456, 0);
    assert_eq!(c.stack[0], 0x202);
    assert_eq!(c.pc, 0x456);
    assert_eq!(c.sp, 1);
}

#[test]
fn call_then_return_resumes_after_the_call() {
    let mut c = machine();
    c.sp = 3;
    c.pc = 0x300;
    c.run_op_with(0x2456, 0);
    c.run_op_with(0x6005, 0);
    c.run_op_with(0x00EE, 0);
    assert_eq!(c.pc, 0x302);
    assert_eq!(c.sp, 3);
    assert_eq!(c.stack[3], 0x302);
    assert_eq!(c.reg[0], 5);
}

#[test]
fn nested_calls_return_in_order() {
    let mut c = machine();
    c.run_op_with(0x2400, 0);
    c.run_op_with(0x2500, 0);
    assert_eq!(c.sp, 2);
    c.run_op_with(0x00EE, 0);
    assert_eq!(c.pc, 0x402);
    c.run_op_with(0x00EE, 0);
    assert_eq!(c.pc, 0x202);
    assert_eq!(c.sp, 0);
}

#[test]
fn op_3xnn_and_4xnn_skip() {
    let mut c = machine();
    c.reg[3] = 0x42;
    c.run_op_with(0x3342, 0);
    assert_eq!(c.pc, 0x204);
    c.run_op_with(0x3343, 0);
    assert_eq!(c.pc, 0x206);
    c.run_op_with(0x4343, 0);
    assert_eq!(c.pc, 0x20A);
    c.run_op_with(0x4342, 0);
    assert_eq!(c.pc, 0x20C);
}

#[test]
fn op_5xy0_and_9xy0_skip() {
    let mut c = machine();
    c.reg[1] = 7;
    c.reg[2] = 7;
    c.run_op_with(0x5120, 0);
    assert_eq!(c.pc, 0x204);
    c.run_op_with(0x9120, 0);
    assert_eq!(c.pc, 0x206);
    c.reg[2] = 8;
    c.run_op_with(0x9120, 0);
    assert_eq!(c.pc, 0x20A);
}

#[test]
fn op_6xnn_and_7xnn() {
    let mut c = machine();
    c.run_op_with(0x6A7F, 0);
    assert_eq!(c.reg[0xA], 0x7F);
    assert_eq!(c.pc, 0x202);
    c.reg[1] = 0xF0;
    c.run_op_with(0x7120, 0);
    assert_eq!(c.reg[1], 0x10);
    assert_eq!(c.reg[0xF], 0);
    assert_eq!(c.pc, 0x204);
}

#[test]
fn op_8xy0_to_8xy3() {
    let mut c = machine();
    c.reg[1] = 0b1100;
    c.reg[2] = 0b1010;
    c.run_op_with(0x8121, 0);
    assert_eq!(c.reg[1], 0b1110);
    c.reg[1] = 0b1100;
    c.run_op_with(0x8122, 0);
    assert_eq!(c.reg[1], 0b1000);
    c.reg[1] = 0b1100;
    c.run_op_with(0x8123, 0);
    assert_eq!(c.reg[1], 0b0110);
    c.run_op_with(0x8120, 0);
    assert_eq!(c.reg[1], 0b1010);
    assert_eq!(c.pc, 0x208);
}

#[test]
fn op_8xy4_adds_with_carry() {
    let mut c = machine();
    c.reg[1] = 200;
    c.reg[2] = 100;
    c.run_op_with(0x8124, 0);
    assert_eq!(c.reg[1], 44);
    assert_eq!(c.reg[0xF], 1);
    assert_eq!(c.reg[0xF] as u16 * 256 + c.reg[1] as u16, 300);
    c.reg[1] = 1;
    c.reg[2] = 2;
    c.run_op_with(0x8124, 0);
    assert_eq!(c.reg[1], 3);
    assert_eq!(c.reg[0xF], 0);
}

#[test]
fn op_8xy5_and_8xy7_subtract_with_borrow_flag() {
    let mut c = machine();
    c.reg[1] = 5;
    c.reg[2] = 7;
    c.run_op_with(0x8125, 0);
    assert_eq!(c.reg[1], 254);
    assert_eq!(c.reg[0xF], 0);
    c.reg[1] = 7;
    c.reg[2] = 5;
    c.run_op_with(0x8125, 0);
    assert_eq!(c.reg[1], 2);
    assert_eq!(c.reg[0xF], 1);
    c.reg[1] = 5;
    c.reg[2] = 7;
    c.run_op_with(0x8127, 0);
    assert_eq!(c.reg[1], 2);
    assert_eq!(c.reg[0xF], 1);
    c.reg[1] = 7;
    c.reg[2] = 5;
    c.run_op_with(0x8127, 0);
    assert_eq!(c.reg[1], 254);
    assert_eq!(c.reg[0xF], 0);
}

#[test]
fn op_8xy6_and_8xye_shift_by_one() {
    let mut c = machine();
    c.reg[1] = 8;
    c.reg[2] = 2;
    c.run_op_with(0x8126, 0);
    assert_eq!(c.reg[0xF], 0);
    assert_eq!(c.reg[1], 4);
    c.reg[1] = 0b1011;
    c.run_op_with(0x8126, 0);
    assert_eq!(c.reg[0xF], 1);
    assert_eq!(c.reg[1], 0b101);
    c.reg[1] = 0x81;
    c.reg[2] = 1;
    c.run_op_with(0x812E, 0);
    assert_eq!(c.reg[0xF], 1);
    assert_eq!(c.reg[1], 0x02);
    c.reg[2] = 9;
    c.reg[1] = 0x41;
    c.run_op_with(0x812E, 0);
    assert_eq!(c.reg[0xF], 0);
    assert_eq!(c.reg[1], 0x82);
    assert_eq!(c.pc, 0x208);
}

#[test]
fn op_annn_bnnn() {
    let mut c = machine();
    c.run_op_with(0xA123, 0);
    assert_eq!(c.i, 0x123);
    assert_eq!(c.pc, 0x202);
    c.reg[0] = 0x10;
    c.run_op_with(0xB200, 0);
    assert_eq!(c.pc, 0x210);
}

#[test]
fn op_cxnn_masks_the_random_byte() {
    let mut c = machine();
    c.run_op_with(0xC30F, 0xAB);
    assert_eq!(c.reg[3], 0x0B);
    assert_eq!(c.pc, 0x202);
    for _ in 0..50 {
        c.run_op(0xC40F);
        assert_eq!(c.reg[4] & 0xF0, 0);
    }
}

#[test]
fn op_dxyn_draws_from_memory() {
    let mut c = machine();
    c.i = 0x50;
    c.run_op_with(0xD015, 0);
    assert_eq!(c.reg[0xF], 0);
    assert_eq!(lit_count(&c), 14);
    assert_eq!(c.pc, 0x202);
    match c.draw_ops.last() {
        Some(DrawOp::Sprite(updates)) => {
            assert_eq!(updates.len(), 40);
            assert_eq!(updates[0], (Point { x: 0, y: 0 }, true));
            assert_eq!(updates[39], (Point { x: 7, y: 4 }, false));
        }
        _ => panic!("expected a sprite"),
    }
    c.run_op_with(0xD015, 0);
    assert_eq!(c.reg[0xF], 0);
    assert_eq!(lit_count(&c), 14);
    c.i = 0x55;
    c.run_op_with(0xD015, 0);
    assert_eq!(c.reg[0xF], 1);
    assert_eq!(lit_count(&c), 8);
    assert_eq!(c.draw_ops.len(), 3);
}

#[test]
fn op_ex9e_exa1_test_keys() {
    let mut c = machine();
    c.keys[5] = true;
    c.reg[2] = 5;
    c.run_op_with(0xE29E, 0);
    assert_eq!(c.pc, 0x204);
    c.run_op_with(0xE2A1, 0);
    assert_eq!(c.pc, 0x206);
    c.reg[2] = 6;
    c.run_op_with(0xE2A1, 0);
    assert_eq!(c.pc, 0x20A);
}

#[test]
fn op_fx07_fx15_fx18_timers() {
    let mut c = machine();
    c.reg[4] = 30;
    c.run_op_with(0xF415, 0);
    assert_eq!(c.delay_timer, 30);
    c.reg[4] = 31;
    c.run_op_with(0xF418, 0);
    assert_eq!(c.sound_timer, 31);
    c.run_op_with(0xF307, 0);
    assert_eq!(c.reg[3], 30);
    assert_eq!(c.pc, 0x206);
}

#[test]
fn op_fx0a_waits_for_a_key() {
    let mut c = machine();
    c.run_op_with(0xF30A, 0);
    assert_eq!(c.pc, 0x200);
    assert_eq!(c.reg[3], 0);
    c.key_buffer = Some(7);
    c.run_op_with(0xF30A, 0);
    assert_eq!(c.reg[3], 7);
    assert_eq!(c.pc, 0x202);
}

#[test]
fn key_press_is_read_by_fx0a() {
    let mut c = machine();
    c.set_key_state(true, KEY_Q);
    assert!(c.keys[4]);
    assert_eq!(c.key_buffer, Some(4));
    c.run_op_with(0xF50A, 0);
    assert_eq!(c.reg[5], 4);
    assert!(c.keys[4]);
}

#[test]
fn set_key_state_ignores_other_keys() {
    let mut c = machine();
    c.set_key_state(true, 27);
    assert_eq!(c.keys, [false; 16]);
    assert_eq!(c.key_buffer, None);
    c.set_key_state(true, KEY_V);
    c.set_key_state(false, KEY_V);
    assert!(!c.keys[0xF]);
    assert_eq!(c.key_buffer, Some(0xF));
}

#[test]
fn op_fx1e_fx29_index() {
    let mut c = machine();
    c.i = 0x100;
    c.reg[5] = 0x20;
    c.run_op_with(0xF51E, 0);
    assert_eq!(c.i, 0x120);
    c.reg[6] = 0xA;
    c.run_op_with(0xF629, 0);
    assert_eq!(c.i, 0x82);
    let i = c.i as usize;
    assert_eq!(&c.memory[i..i + 5], &[0xF0, 0x90, 0xF0, 0x90, 0x90]);
}

#[test]
fn op_fx33_writes_decimal_digits() {
    let mut c = machine();
    c.i = 0x300;
    c.reg[7] = 254;
    c.run_op_with(0xF733, 0);
    assert_eq!(&c.memory[0x300..0x303], &[2, 5, 4]);
    c.reg[7] = 7;
    c.run_op_with(0xF733, 0);
    assert_eq!(&c.memory[0x300..0x303], &[0, 0, 7]);
    assert_eq!(c.pc, 0x204);
}

#[test]
fn op_fx65_loads_registers() {
    let mut c = machine();
    c.memory[0x400] = 5;
    c.memory[0x401] = 6;
    c.memory[0x402] = 7;
    c.reg[3] = 9;
    c.i = 0x400;
    c.run_op_with(0xF265, 0);
    assert_eq!(&c.reg[0..4], &[5, 6, 7, 9]);
    assert_eq!(c.i, 0x400);
    assert_eq!(c.pc, 0x202);
}

#[test]
fn op_fx55_stores_registers() {
    let mut c = machine();
    c.reg[0] = 1;
    c.reg[1] = 2;
    c.reg[2] = 3;
    c.reg[3] = 4;
    c.i = 0x400;
    c.run_op_with(0xF255, 0);
    assert_eq!(&c.memory[0x400..0x404], &[1, 2, 3, 0]);
    assert_eq!(c.i, 0x400);
    assert_eq!(c.pc, 0x202);
}

#[test]
fn faults_of_opcodes() {
    let mut c = machine();
    assert_eq!(c.op_fault(0x6000), None);
    assert_eq!(c.op_fault(0x0123), Some(Fault::MachineCode));
    assert_eq!(c.op_fault(0x5121), Some(Fault::BadOpcode));
    assert_eq!(c.op_fault(0x8128), Some(Fault::BadOpcode));
    assert_eq!(c.op_fault(0xE000), Some(Fault::BadOpcode));
    assert_eq!(c.op_fault(0xF0FF), Some(Fault::BadOpcode));
    assert_eq!(c.op_fault(0x00EE), Some(Fault::StackUnderflow));
    assert_eq!(c.op_fault(0xF065), None);
    c.sp = 16;
    assert_eq!(c.op_fault(0x2000), Some(Fault::StackIndex));
    assert_eq!(c.op_fault(0x00EE), None);
    c.sp = 17;
    assert_eq!(c.op_fault(0x00EE), Some(Fault::StackIndex));
    c.sp = 0;
    c.pc = 0xFFFE;
    assert_eq!(c.op_fault(0x6000), Some(Fault::ProgramCounterOverflow));
    assert_eq!(c.op_fault(0x2000), Some(Fault::ProgramCounterOverflow));
    assert_eq!(c.op_fault(0x1000), None);
    c.pc = 0xFFFC;
    assert_eq!(c.op_fault(0x3000), Some(Fault::ProgramCounterOverflow));
    assert_eq!(c.op_fault(0x3001), None);
    c.pc = 0x200;
    c.reg[2] = 8;
    assert_eq!(c.op_fault(0x8126), None);
    assert_eq!(c.op_fault(0x812E), None);
    c.i = 4095;
    assert_eq!(c.op_fault(0xF033), Some(Fault::MemoryRange));
    assert_eq!(c.op_fault(0xF155), Some(Fault::MemoryRange));
    assert_eq!(c.op_fault(0xD002), Some(Fault::MemoryRange));
    assert_eq!(c.op_fault(0xF265), Some(Fault::MemoryRange));
    c.i = 0x50;
    c.reg[1] = 31;
    assert_eq!(c.op_fault(0xD012), Some(Fault::SpriteRange));
    assert_eq!(c.op_fault(0xD011), None);
    c.reg[0] = 16;
    assert_eq!(c.op_fault(0xE09E), Some(Fault::KeyIndex));
    c.i = 0xFFFF;
    c.reg[0] = 1;
    assert_eq!(c.op_fault(0xF01E), Some(Fault::IndexOverflow));
    c.pc = 4095;
    assert_eq!(c.cycle_fault(), Some(Fault::FetchRange));
}

#[test]
fn update_timers_outcomes() {
    let mut c = machine_from(1_000);
    assert_eq!(c.update_timers(999), Err(ClockFault::Backwards));
    c.start_time_micros = 10;
    c.latest_time_micros = 5;
    assert_eq!(c.update_timers(20), Ok(()));
    assert_eq!(c.latest_time_micros, 20);
    let mut c = machine_from(0);
    c.delay_timer = 100;
    c.sound_timer = 1;
    assert_eq!(c.update_timers(1_000_000), Ok(()));
    assert_eq!(c.delay_timer, 40);
    assert_eq!(c.sound_timer, 0);
    assert_eq!(c.latest_time_micros, 1_000_000);
    assert_eq!(c.update_timers(1_016_667), Ok(()));
    assert_eq!(c.delay_timer, 39);
    assert_eq!(c.update_timers(2_000_000), Ok(()));
    assert_eq!(c.delay_timer, 0);
    assert_eq!(c.sound_timer, 0);
}

#[test]
fn timers_count_down_the_same_in_steps() {
    let mut stepped = machine_from(0);
    stepped.delay_timer = 100;
    let mut direct = machine_from(0);
    direct.delay_timer = 100;
    for now in [10u128, 16_000, 16_700, 500_000, 999_999] {
        assert_eq!(stepped.update_timers(now), Ok(()));
        assert!(stepped.delay_timer <= 100);
    }
    assert_eq!(stepped.update_timers(1_000_000), Ok(()));
    assert_eq!(direct.update_timers(1_000_000), Ok(()));
    assert_eq!(stepped.delay_timer, 40);
    assert_eq!(direct.delay_timer, 40);
}

#[test]
fn load_rom_writes_from_0x200() {
    let mut c = machine();
    c.load_rom(&[0x60, 0x2A, 0x12, 0x00]);
    assert_eq!(&c.memory[0x200..0x204], &[0x60, 0x2A, 0x12, 0x00]);
    assert_eq!(c.memory[0x204], 0);
    let big = vec![0xAB; 3584];
    c.load_rom(&big);
    assert_eq!(c.memory[4095], 0xAB);
    assert_eq!(&c.memory[0x50..0xA0], &FONT[..]);
}

#[test]
fn single_cycle_fetches_and_executes() {
    let mut c = Compy::new().unwrap();
    c.load_rom(&[0x60, 0x2A, 0x12, 0x00]);
    c.key_buffer = Some(3);
    assert_eq!(c.cycle_fault(), None);
    assert_eq!(c.single_cycle(), Ok(()));
    assert_eq!(c.reg[0], 0x2A);
    assert_eq!(c.pc, 0x202);
    assert_eq!(c.key_buffer, None);
    assert_eq!(c.single_cycle(), Ok(()));
    assert_eq!(c.pc, 0x200);
    assert_eq!(c.delay_timer, 0);
}

#[test]
fn single_cycle_executes_even_when_the_clock_fails() {
    let mut c = machine_from(u128::MAX);
    c.load_rom(&[0x61, 0x05]);
    assert_eq!(c.single_cycle(), Err(ClockFault::Backwards));
    assert_eq!(c.reg[1], 5);
    assert_eq!(c.pc, 0x202);
}

#[test]
fn retain_from_last_clear_keeps_the_tail() {
    let mut c = machine();
    c.retain_from_last_clear();
    assert!(c.draw_ops.is_empty());
    c.i = 0x50;
    c.run_op_with(0xD011, 0);
    c.retain_from_last_clear();
    assert_eq!(c.draw_ops.len(), 1);
    c.run_op_with(0x00E0, 0);
    c.run_op_with(0xD011, 0);
    c.run_op_with(0x00E0, 0);
    c.run_op_with(0xD011, 0);
    assert_eq!(c.draw_ops.len(), 5);
    c.retain_from_last_clear();
    assert_eq!(c.draw_ops.len(), 2);
    assert!(matches!(c.draw_ops[0], DrawOp::Clear));
    assert!(matches!(c.draw_ops[1], DrawOp::Sprite(_)));
    c.retain_from_last_clear();
    assert_eq!(c.draw_ops.len(), 2);
}

#[test]
fn nibbles_rebuild_the_opcode_fields() {
    for op in [0x0000u16, 0x1ABC, 0x6A7F, 0xD015, 0xFFFF, 0x8126] {
        let x = ((op & 0x0F00) >> 8) as u8;
        let y = ((op & 0x00F0) >> 4) as u8;
        let n = (op & 0x000F) as u8;
        assert_eq!(addr(x, y, n), op & 0x0FFF);
        assert_eq!(val(y, n) as u16, op & 0x00FF);
    }
}

#[test]
fn fx29_finds_the_glyph_on_a_running_machine() {
    let mut c = machine();
    c.load_rom(&[0xFF; 100]);
    c.i = 0x300;
    c.reg[7] = 99;
    c.run_op_with(0xF733, 0);
    for d in 0..16u8 {
        c.reg[2] = d;
        c.run_op_with(0xF229, 0);
        let i = c.i as usize;
        assert_eq!(i, 0x50 + 5 * d as usize);
        assert_eq!(&c.memory[i..i + 5], &FONT[5 * d as usize..5 * d as usize + 5]);
    }
}

#[test]
fn timers_count_down_when_the_latest_reading_is_before_the_start() {
    let mut c = machine_from(100);
    c.latest_time_micros = 0;
    c.delay_timer = 100;
    assert_eq!(c.update_timers(100_000), Ok(()));
    assert_eq!(c.delay_timer, 94);
    assert_eq!(c.latest_time_micros, 100_000);
    let mut d = machine_from(1_000_000);
    d.latest_time_micros = 0;
    d.delay_timer = 100;
    assert_eq!(d.update_timers(500_000), Ok(()));
    assert_eq!(d.delay_timer, 70);
}

#[test]
fn only_cxnn_draws_from_the_generator() {
    let mut c = machine();
    let before = c.rng.clone();
    c.load_rom(&[0x60, 0x01, 0xF0, 0x0A]);
    c.run_op(0x6005);
    c.run_op(0xF10A);
    c.set_key_state(true, KEY_Q);
    c.update_timers(10).unwrap();
    c.retain_from_last_clear();
    assert!(c.rng == before);
    c.run_op(0xC1FF);
    assert!(c.rng != before);
}

#[test]
fn fx0a_without_a_key_changes_nothing() {
    let mut c = machine();
    let pc = c.pc;
    let reg = c.reg;
    let rng = c.rng.clone();
    c.run_op(0xF30A);
    assert_eq!(c.pc, pc);
    assert_eq!(c.reg, reg);
    assert!(c.rng == rng);
}
