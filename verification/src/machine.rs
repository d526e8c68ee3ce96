//! The CHIP-8 machine: memory, registers, stack, timers, keypad state and display,
//! the instruction set that acts on them, and the fetch-execute cycle.
//!
//! Every operation is stated over [`Machine`], the mathematical view of a [`Compy`].

use crate::font::fontset;
use crate::font::font_bytes;
use crate::graphics::blank_pixels;
use crate::graphics::drawn_pixels;
use crate::graphics::sprite_collides;
use crate::graphics::sprite_fits;
use crate::graphics::sprite_updates;
use crate::graphics::Point;
use crate::graphics::Screen;
use crate::keypad::keynum_for_keycode;
use crate::keypad::keypad_value;
use crate::platform::duration_micros;
use crate::platform::rng_from_os;
use crate::platform::random_byte;
use crate::platform::since_unix_epoch;
use crate::platform::system_now;
use rand::rngs::StdRng;
use vstd::prelude::*;

verus! {

/// Bytes of memory.
pub const MEMORY_SIZE: usize = 4096;

/// Address at which programs are loaded and execution starts.
pub const PROGRAM_START: u16 = 0x200;

/// Address of the built-in font.
pub const FONT_START: u16 = 0x50;

/// Number of bytes available to a program (`MEMORY_SIZE - PROGRAM_START`).
pub const MAX_ROM_SIZE: usize = 3584;

/// Timer ticks per second: the delay and sound timers count down at 60 Hz.
pub const TIMER_HZ: u128 = 60;

/// Microseconds per second.
pub const MICROS_PER_SECOND: u128 = 1_000_000;

/// A drawing operation for whoever shows the display.
pub enum DrawOp {
    /// The whole display was cleared.
    Clear,
    /// These pixels were set to these states.
    Sprite(Vec<(Point, bool)>),
}

/// The view of a [`DrawOp`].
pub enum DrawOpView {
    Clear,
    Sprite(Seq<(Point, bool)>),
}

impl View for DrawOp {
    type V = DrawOpView;

    open spec fn view(&self) -> DrawOpView {
        match self {
            DrawOp::Clear => DrawOpView::Clear,
            DrawOp::Sprite(v) => DrawOpView::Sprite(v@),
        }
    }
}

/// Why an instruction cannot be carried out.
#[derive(Clone, Copy, Debug, PartialEq, Eq, Structural)]
pub enum Fault {
    /// `0NNN` other than `00E0` and `00EE`: machine-code routines are not supported.
    MachineCode,
    /// No instruction has this encoding.
    BadOpcode,
    /// The stack pointer lies outside the stack.
    StackIndex,
    /// A return with an empty stack.
    StackUnderflow,
    /// The program counter would pass `0xFFFF`.
    ProgramCounterOverflow,
    /// A memory access outside the 4096 bytes.
    MemoryRange,
    /// A sprite row would be written outside the display memory.
    SpriteRange,
    /// A key number outside the sixteen keys.
    KeyIndex,
    /// The index register would pass `0xFFFF`.
    IndexOverflow,
    /// The instruction at the program counter lies outside memory.
    FetchRange,
}

/// Why the clock could not drive the timers.
#[derive(Clone, Copy, Debug, PartialEq, Eq, Structural)]
pub enum ClockFault {
    /// The clock reads a time before the Unix epoch.
    BeforeEpoch,
    /// The clock reads a time before the latest reading.
    Backwards,
}

/// Why a machine could not be set up.
#[derive(Clone, Copy, Debug, PartialEq, Eq, Structural)]
pub enum StartFault {
    /// The clock reads a time before the Unix epoch.
    BeforeEpoch,
    /// The operating system gave no entropy to seed the random number generator.
    NoEntropy,
}

/// The state of a machine, as mathematical values.
#[verifier::ext_equal]
pub struct Machine {
    pub memory: Seq<u8>,
    pub reg: Seq<u8>,
    pub i: u16,
    pub pc: u16,
    pub pixels: Seq<bool>,
    pub delay_timer: u8,
    pub sound_timer: u8,
    pub stack: Seq<u16>,
    pub sp: usize,
    pub keys: Seq<bool>,
    pub key_buffer: Option<u8>,
    pub start_time_micros: u128,
    pub latest_time_micros: u128,
    pub draw_flag: bool,
    pub draw_ops: Seq<DrawOpView>,
}

/// A CHIP-8 machine.
pub struct Compy {
    pub memory: [u8; 4096],
    pub reg: [u8; 16],
    pub i: u16,
    pub pc: u16,
    pub gfx: Screen,
    pub delay_timer: u8,
    pub sound_timer: u8,
    pub stack: [u16; 16],
    pub sp: usize,
    pub keys: [bool; 16],
    pub key_buffer: Option<u8>,
    pub start_time_micros: u128,
    pub latest_time_micros: u128,
    pub draw_flag: bool,
    pub draw_ops: Vec<DrawOp>,
    pub rng: StdRng,
}

impl View for Compy {
    type V = Machine;

    open spec fn view(&self) -> Machine {
        Machine {
            memory: self.memory@,
            reg: self.reg@,
            i: self.i,
            pc: self.pc,
            pixels: self.gfx@,
            delay_timer: self.delay_timer,
            sound_timer: self.sound_timer,
            stack: self.stack@,
            sp: self.sp,
            keys: self.keys@,
            key_buffer: self.key_buffer,
            start_time_micros: self.start_time_micros,
            latest_time_micros: self.latest_time_micros,
            draw_flag: self.draw_flag,
            draw_ops: self.draw_ops@.map_values(|op: DrawOp| op@),
        }
    }
}

/// The sizes that every machine state has.
pub open spec fn machine_wf(m: Machine) -> bool {
    &&& m.memory.len() == 4096
    &&& m.reg.len() == 16
    &&& m.pixels.len() == 2048
    &&& m.stack.len() == 16
    &&& m.keys.len() == 16
}

/// The state of a fresh machine whose clock started at `start`: all memory zero but
/// the font at `FONT_START`, registers, stack and timers zero, the program counter at
/// `PROGRAM_START`, the display dark, no key down or buffered, no drawing pending.
pub open spec fn initial_machine(start: u128) -> Machine {
    Machine {
        memory: Seq::new(
            4096,
            |k: int| if 0x50 <= k < 0x50 + 80 { font_bytes()[k - 0x50] } else { 0u8 },
        ),
        reg: Seq::new(16, |k: int| 0u8),
        i: 0,
        pc: 0x200,
        pixels: blank_pixels(),
        delay_timer: 0,
        sound_timer: 0,
        stack: Seq::new(16, |k: int| 0u16),
        sp: 0,
        keys: Seq::new(16, |k: int| false),
        key_buffer: None,
        start_time_micros: start,
        latest_time_micros: start,
        draw_flag: false,
        draw_ops: Seq::empty(),
    }
}

/// The address `0x N1 N2 N3` made of three nibbles.
pub open spec fn spec_addr(n1: u8, n2: u8, n3: u8) -> u16 {
    ((n1 as u16) << 8u16) | ((n2 as u16) << 4u16) | (n3 as u16)
}

/// The byte `0x N1 N2` made of two nibbles.
pub open spec fn spec_val(n1: u8, n2: u8) -> u8 {
    (n1 << 4u8) | n2
}

/// The address `0x N1 N2 N3` made of three nibbles (only the low bits of each count
/// where they are wider).
pub fn addr(n1: u8, n2: u8, n3: u8) -> (r: u16)
    ensures
        r == spec_addr(n1, n2, n3),
        n1 < 16 && n2 < 16 && n3 < 16 ==> r == n1 * 256 + n2 * 16 + n3,
{
    let r = ((n1 as u16) << 8) | ((n2 as u16) << 4) | (n3 as u16);
    assert(n1 < 16 && n2 < 16 && n3 < 16 ==> ((n1 as u16) << 8u16) | ((n2 as u16) << 4u16) | (
    n3 as u16) == (n1 as u16) * 256 + (n2 as u16) * 16 + (n3 as u16)) by (bit_vector);
    r
}

/// The byte `0x N1 N2` made of two nibbles (the high bits of `n1` are shifted out).
pub fn val(n1: u8, n2: u8) -> (r: u8)
    ensures
        r == spec_val(n1, n2),
        n1 < 16 && n2 < 16 ==> r == n1 * 16 + n2,
{
    let r = (n1 << 4) | n2;
    assert(n1 < 16 && n2 < 16 ==> (n1 << 4u8) | n2 == (n1 as u16) * 16 + (n2 as u16)) by (bit_vector);
    r
}

/// First nibble of an opcode: the instruction group.
pub open spec fn op_a(op: u16) -> u8 {
    (op / 4096) as u8
}

/// Second nibble of an opcode: usually the register `X`.
pub open spec fn op_x(op: u16) -> u8 {
    ((op / 256) % 16) as u8
}

/// Third nibble of an opcode: usually the register `Y`.
pub open spec fn op_y(op: u16) -> u8 {
    ((op / 16) % 16) as u8
}

/// Fourth nibble of an opcode.
pub open spec fn op_n(op: u16) -> u8 {
    (op % 16) as u8
}

/// The opcode's low twelve bits, `NNN`.
pub open spec fn op_nnn(op: u16) -> u16 {
    (op % 4096) as u16
}

/// The opcode's low byte, `NN`.
pub open spec fn op_nn(op: u16) -> u8 {
    (op % 256) as u8
}

/// The program counter moves to the next instruction.
pub open spec fn advance(m: Machine) -> Machine {
    Machine { pc: (m.pc + 2) as u16, ..m }
}

/// The program counter skips the next instruction when `c` holds, else moves to it.
pub open spec fn skip_if(m: Machine, c: bool) -> Machine {
    Machine { pc: (m.pc + if c { 4int } else { 2int }) as u16, ..m }
}

/// Register `x` is set to `v`.
pub open spec fn with_reg(m: Machine, x: int, v: u8) -> Machine {
    Machine { reg: m.reg.update(x, v), ..m }
}

/// The registers are replaced by `reg`.
pub open spec fn with_regs(m: Machine, reg: Seq<u8>) -> Machine {
    Machine { reg: reg, ..m }
}

/// The memory is replaced by `memory`.
pub open spec fn with_memory(m: Machine, memory: Seq<u8>) -> Machine {
    Machine { memory: memory, ..m }
}

/// `u8` addition modulo 256.
pub open spec fn add_mod(a: u8, b: u8) -> u8 {
    ((a + b) % 256) as u8
}

/// `u8` subtraction modulo 256.
pub open spec fn sub_mod(a: u8, b: u8) -> u8 {
    ((a - b + 256) % 256) as u8
}

/// The registers after the arithmetic and logic instruction `8XYN`.
pub open spec fn alu_regs(reg: Seq<u8>, x: int, y: int, n: u8) -> Seq<u8> {
    let vx = reg[x];
    let vy = reg[y];
    if n == 0x0 {
        reg.update(x, vy)
    } else if n == 0x1 {
        reg.update(x, vx | vy)
    } else if n == 0x2 {
        reg.update(x, vx & vy)
    } else if n == 0x3 {
        reg.update(x, vx ^ vy)
    } else if n == 0x4 {
        reg.update(x, add_mod(vx, vy)).update(15, if vx + vy > 255 { 1u8 } else { 0u8 })
    } else if n == 0x5 {
        reg.update(x, sub_mod(vx, vy)).update(15, if vx < vy { 0u8 } else { 1u8 })
    } else if n == 0x6 {
        let r = reg.update(15, vx % 2);
        r.update(x, r[x] / 2)
    } else if n == 0x7 {
        reg.update(x, sub_mod(vy, vx)).update(15, if vy < vx { 0u8 } else { 1u8 })
    } else {
        let r = reg.update(15, vx / 128);
        r.update(x, ((r[x] * 2) % 256) as u8)
    }
}

/// The state after `DXYN`: the `n` bytes from `I` are drawn as a sprite at
/// (`VX`, `VY`), `VF` records whether a lit pixel went dark, and the pixel updates
/// are queued.
pub open spec fn draw_result(m: Machine, x: int, y: int, n: u8) -> Machine {
    let sprite = m.memory.subrange(m.i as int, m.i + n);
    let vx = m.reg[x] as int;
    let vy = m.reg[y] as int;
    Machine {
        pixels: drawn_pixels(m.pixels, vx, vy, sprite),
        reg: m.reg.update(15, if sprite_collides(m.pixels, vx, vy, sprite) { 1u8 } else { 0u8 }),
        draw_ops: m.draw_ops.push(DrawOpView::Sprite(sprite_updates(vx, vy, sprite))),
        ..m
    }
}

/// The memory after `FX33`: the decimal digits of `v` at `I`, `I + 1` and `I + 2`.
pub open spec fn bcd_memory(memory: Seq<u8>, i: int, v: u8) -> Seq<u8> {
    memory.update(i, v / 100).update(i + 1, (v % 100) / 10).update(i + 2, v % 10)
}

/// The memory after `FX55`: registers `V0` to `VX` at `I` to `I + X`.
pub open spec fn stored_regs(memory: Seq<u8>, reg: Seq<u8>, i: int, x: int) -> Seq<u8> {
    Seq::new(memory.len(), |k: int| if i <= k <= i + x { reg[k - i] } else { memory[k] })
}

/// The display is cleared and the clearing is queued for whoever shows it.
pub open spec fn display_cleared(m: Machine) -> Machine {
    Machine { pixels: blank_pixels(), draw_ops: m.draw_ops.push(DrawOpView::Clear), ..m }
}

/// Return from a subroutine: the stack pointer goes down by one, and the program
/// counter is read from the stack there (the address after the call).
pub open spec fn returned(m: Machine) -> Machine {
    Machine { pc: m.stack[m.sp - 1], sp: (m.sp - 1) as usize, ..m }
}

/// Call of the subroutine at `target`: the address of the instruction after the call
/// is pushed on the stack at the stack pointer, the stack pointer goes up by one, and
/// the program counter becomes `target`.
pub open spec fn called(m: Machine, target: u16) -> Machine {
    Machine {
        stack: m.stack.update(m.sp as int, (m.pc + 2) as u16),
        sp: (m.sp + 1) as usize,
        pc: target,
        ..m
    }
}

/// The index register points at the font glyph of digit `c`.
pub open spec fn glyph_selected(m: Machine, c: u8) -> Machine {
    Machine { i: (0x50 + c * 5) as u16, ..m }
}

/// The registers after `FX65`: `V0` to `VX` from the memory at `I` to `I + X`.
pub open spec fn loaded_regs(reg: Seq<u8>, memory: Seq<u8>, i: int, x: int) -> Seq<u8> {
    Seq::new(reg.len(), |k: int| if k <= x { memory[i + k] } else { reg[k] })
}

/// The state after an `FXNN` instruction.
pub open spec fn misc_result(m: Machine, x: int, nn: u8) -> Machine {
    let vx = m.reg[x];
    if nn == 0x07 {
        advance(with_reg(m, x, m.delay_timer))
    } else if nn == 0x0A {
        match m.key_buffer {
            Some(k) => advance(with_reg(m, x, k)),
            None => m,
        }
    } else if nn == 0x15 {
        advance(Machine { delay_timer: vx, ..m })
    } else if nn == 0x18 {
        advance(Machine { sound_timer: vx, ..m })
    } else if nn == 0x1E {
        advance(Machine { i: (m.i + vx) as u16, ..m })
    } else if nn == 0x29 {
        advance(glyph_selected(m, vx))
    } else if nn == 0x33 {
        advance(Machine { memory: bcd_memory(m.memory, m.i as int, vx), ..m })
    } else if nn == 0x55 {
        advance(Machine { memory: stored_regs(m.memory, m.reg, m.i as int, x), ..m })
    } else {
        advance(with_regs(m, loaded_regs(m.reg, m.memory, m.i as int, x)))
    }
}

/// The state after executing `op`, where `rnd` is the random byte that `CXNN` uses.
/// (Meaningful where `fault_of` finds no fault.)
pub open spec fn next_state(m: Machine, op: u16, rnd: u8) -> Machine {
    let a = op_a(op);
    let x = op_x(op) as int;
    let y = op_y(op) as int;
    let nnn = op_nnn(op);
    let nn = op_nn(op);
    let vx = m.reg[x];
    let vy = m.reg[y];
    if a == 0x0 {
        if op_n(op) == 0x0 {
            advance(display_cleared(m))
        } else {
            returned(m)
        }
    } else if a == 0x1 {
        Machine { pc: nnn, ..m }
    } else if a == 0x2 {
        called(m, nnn)
    } else if a == 0x3 {
        skip_if(m, vx == nn)
    } else if a == 0x4 {
        skip_if(m, vx != nn)
    } else if a == 0x5 {
        skip_if(m, vx == vy)
    } else if a == 0x6 {
        advance(with_reg(m, x, nn))
    } else if a == 0x7 {
        advance(with_reg(m, x, add_mod(vx, nn)))
    } else if a == 0x8 {
        advance(with_regs(m, alu_regs(m.reg, x, y, op_n(op))))
    } else if a == 0x9 {
        skip_if(m, vx != vy)
    } else if a == 0xA {
        advance(Machine { i: nnn, ..m })
    } else if a == 0xB {
        Machine { pc: (m.reg[0] + nnn) as u16, ..m }
    } else if a == 0xC {
        advance(with_reg(m, x, rnd & nn))
    } else if a == 0xD {
        advance(draw_result(m, x, y, op_n(op)))
    } else if a == 0xE {
        if nn == 0x9E {
            skip_if(m, m.keys[vx as int])
        } else {
            skip_if(m, !m.keys[vx as int])
        }
    } else {
        misc_result(m, x, nn)
    }
}

/// The program counter cannot move to the next instruction.
pub open spec fn step_fault(m: Machine) -> Option<Fault> {
    if m.pc + 2 > 0xFFFF {
        Some(Fault::ProgramCounterOverflow)
    } else {
        None
    }
}

/// The program counter cannot move past one or two instructions, as `c` decides.
pub open spec fn skip_fault(m: Machine, c: bool) -> Option<Fault> {
    if m.pc + (if c { 4int } else { 2int }) > 0xFFFF {
        Some(Fault::ProgramCounterOverflow)
    } else {
        None
    }
}

/// What keeps `op` from being carried out in state `m`, if anything.
pub open spec fn fault_of(m: Machine, op: u16) -> Option<Fault> {
    let a = op_a(op);
    let x = op_x(op) as int;
    let y = op_y(op) as int;
    let n = op_n(op);
    let nn = op_nn(op);
    let vx = m.reg[x];
    let vy = m.reg[y];
    if a == 0x0 {
        if x == 0x0 && y == 0xE && n == 0x0 {
            step_fault(m)
        } else if x == 0x0 && y == 0xE && n == 0xE {
            if m.sp == 0 {
                Some(Fault::StackUnderflow)
            } else if m.sp > 16 {
                Some(Fault::StackIndex)
            } else {
                None
            }
        } else {
            Some(Fault::MachineCode)
        }
    } else if a == 0x1 || a == 0xB {
        None
    } else if a == 0x2 {
        if m.sp >= 16 {
            Some(Fault::StackIndex)
        } else {
            step_fault(m)
        }
    } else if a == 0x3 {
        skip_fault(m, vx == nn)
    } else if a == 0x4 {
        skip_fault(m, vx != nn)
    } else if a == 0x5 || a == 0x9 {
        if n != 0 {
            Some(Fault::BadOpcode)
        } else if a == 0x5 {
            skip_fault(m, vx == vy)
        } else {
            skip_fault(m, vx != vy)
        }
    } else if a == 0x6 || a == 0x7 || a == 0xA || a == 0xC {
        step_fault(m)
    } else if a == 0x8 {
        if n <= 0x7 || n == 0xE {
            step_fault(m)
        } else {
            Some(Fault::BadOpcode)
        }
    } else if a == 0xD {
        if m.i + n > 4096 {
            Some(Fault::MemoryRange)
        } else if !sprite_fits(vx as int, vy as int, n as int) {
            Some(Fault::SpriteRange)
        } else {
            step_fault(m)
        }
    } else if a == 0xE {
        if nn == 0x9E || nn == 0xA1 {
            if vx >= 16 {
                Some(Fault::KeyIndex)
            } else if nn == 0x9E {
                skip_fault(m, m.keys[vx as int])
            } else {
                skip_fault(m, !m.keys[vx as int])
            }
        } else {
            Some(Fault::BadOpcode)
        }
    } else {
        if nn == 0x07 || nn == 0x15 || nn == 0x18 || nn == 0x29 {
            step_fault(m)
        } else if nn == 0x0A {
            if m.key_buffer is Some {
                step_fault(m)
            } else {
                None
            }
        } else if nn == 0x1E {
            if m.i + vx > 0xFFFF {
                Some(Fault::IndexOverflow)
            } else {
                step_fault(m)
            }
        } else if nn == 0x33 {
            if m.i + 2 >= 4096 {
                Some(Fault::MemoryRange)
            } else {
                step_fault(m)
            }
        } else if nn == 0x55 || nn == 0x65 {
            if m.i + x >= 4096 {
                Some(Fault::MemoryRange)
            } else {
                step_fault(m)
            }
        } else {
            Some(Fault::BadOpcode)
        }
    }
}

/// The opcode at the program counter: the byte there, then the byte after it.
pub open spec fn fetch(m: Machine) -> u16 {
    ((m.memory[m.pc as int] as u16) << 8u16) | (m.memory[m.pc + 1] as u16)
}

/// What keeps the next cycle from executing its instruction, if anything.
pub open spec fn cycle_fault(m: Machine) -> Option<Fault> {
    if m.pc + 1 >= 4096 {
        Some(Fault::FetchRange)
    } else {
        fault_of(m, fetch(m))
    }
}

/// The state after a cycle has executed the instruction at the program counter (with
/// `rnd` as its random byte) and emptied the key buffer.
pub open spec fn executed(m: Machine, rnd: u8) -> Machine {
    Machine { key_buffer: None, ..next_state(m, fetch(m), rnd) }
}

/// Whole 60 Hz ticks from the start reading to the reading `t` (rounded down, so
/// negative before the start): the timers tick on a grid that begins at the start.
pub open spec fn ticks_since_start(m: Machine, t: int) -> int {
    (t - m.start_time_micros) * 60 / 1_000_000
}

/// `a` less `b`, or 0 where `b` exceeds `a`.
pub open spec fn count_down(a: u8, b: int) -> u8 {
    if b >= a {
        0
    } else {
        (a - b) as u8
    }
}

/// The timers after the clock reads `now`: both count down (stopping at zero) by the
/// number of 60 Hz ticks from the latest reading to `now`, and `now` becomes the latest
/// reading. Fails where `now` lies before the latest reading.
pub open spec fn timers_after(m: Machine, now: u128) -> Result<Machine, ClockFault> {
    if now < m.latest_time_micros {
        Err(ClockFault::Backwards)
    } else {
        let ticks = ticks_since_start(m, now as int) - ticks_since_start(
            m,
            m.latest_time_micros as int,
        );
        Ok(
            Machine {
                latest_time_micros: now,
                sound_timer: count_down(m.sound_timer, ticks),
                delay_timer: count_down(m.delay_timer, ticks),
                ..m
            },
        )
    }
}

/// The memory with `rom` written from `PROGRAM_START` on.
pub open spec fn rom_loaded(memory: Seq<u8>, rom: Seq<u8>) -> Seq<u8> {
    Seq::new(
        memory.len(),
        |k: int| if 0x200 <= k < 0x200 + rom.len() { rom[k - 0x200] } else { memory[k] },
    )
}

/// The state after keyboard key `keycode` goes down (`down`) or up: where it stands
/// for a keypad key, that key's state is set and the key is buffered; any other key
/// changes nothing.
pub open spec fn key_state_set(m: Machine, down: bool, keycode: i32) -> Machine {
    match keypad_value(keycode) {
        Some(k) => Machine { keys: m.keys.update(k as int, down), key_buffer: Some(k), ..m },
        None => m,
    }
}

/// The index of the last `Clear` among the first `n` drawing operations.
pub open spec fn last_clear_in(ops: Seq<DrawOpView>, n: int) -> Option<int>
    decreases n,
{
    if n <= 0 {
        None
    } else if ops[n - 1] is Clear {
        Some(n - 1)
    } else {
        last_clear_in(ops, n - 1)
    }
}

/// The drawing operations from the last `Clear` on; all of them where none clears.
pub open spec fn from_last_clear(ops: Seq<DrawOpView>) -> Seq<DrawOpView> {
    match last_clear_in(ops, ops.len() as int) {
        Some(k) => ops.skip(k),
        None => ops,
    }
}

/// The drawing operations are replaced by `ops`.
pub open spec fn with_draw_ops(m: Machine, ops: Seq<DrawOpView>) -> Machine {
    Machine { draw_ops: ops, ..m }
}

/// Queuing a drawing operation adds its view at the end of the queue's view.
proof fn lemma_push_view(ops: Seq<DrawOp>, op: DrawOp)
    ensures
        ops.push(op).map_values(|o: DrawOp| o@) == ops.map_values(|o: DrawOp| o@).push(op@),
{
    assert(ops.push(op).map_values(|o: DrawOp| o@) =~= ops.map_values(|o: DrawOp| o@).push(op@));
}

/// The nibbles of an opcode are its four hexadecimal digits, below 16 each, and are
/// what masking and shifting the opcode gives; `NN` and `NNN` are made of the last
/// two and the last three of them.
pub proof fn lemma_nibbles(op: u16)
    ensures
        op_a(op) < 16,
        op_x(op) < 16,
        op_y(op) < 16,
        op_n(op) < 16,
        op_nn(op) == op_y(op) * 16 + op_n(op),
        op_nnn(op) == op_x(op) * 256 + op_y(op) * 16 + op_n(op),
        op_a(op) == ((op & 0xF000u16) >> 12u16) as u8,
        op_x(op) == ((op & 0x0F00u16) >> 8u16) as u8,
        op_y(op) == ((op & 0x00F0u16) >> 4u16) as u8,
        op_n(op) == (op & 0x000Fu16) as u8,
{
    assert((op & 0xF000u16) >> 12u16 == op / 4096) by (bit_vector);
    assert((op & 0x0F00u16) >> 8u16 == (op / 256) % 16) by (bit_vector);
    assert((op & 0x00F0u16) >> 4u16 == (op / 16) % 16) by (bit_vector);
    assert(op & 0x000Fu16 == op % 16) by (bit_vector);
    assert(op % 256 == ((op / 16) % 16) * 16 + op % 16) by (bit_vector);
    assert(op % 4096 == ((op / 256) % 16) * 256 + ((op / 16) % 16) * 16 + op % 16) by (bit_vector);
}


/// Whole 60 Hz ticks in `micros` microseconds.
fn ticks_in(micros: u128) -> (t: u128)
    ensures
        t == micros * 60 / 1_000_000,
        t * 16_666 <= micros,
{
    let q = micros / MICROS_PER_SECOND;
    let r = micros % MICROS_PER_SECOND;
    proof {
        vstd::arithmetic::div_mod::lemma_fundamental_div_mod(micros as int, 1_000_000);
        vstd::arithmetic::div_mod::lemma_hoist_over_denominator(r * 60, q * 60, 1_000_000);
        assert(r * 60 + (q * 60) * 1_000_000 == micros * 60);
    }
    q * TIMER_HZ + r * TIMER_HZ / MICROS_PER_SECOND
}

/// Whole 60 Hz ticks that `micros` microseconds before a reading lie back from it,
/// counted up to a whole tick: `-t` is the tick of the grid that a reading `micros`
/// microseconds before its origin falls in.
fn ticks_up_to(micros: u128) -> (t: u128)
    ensures
        -(t as int) == (-(micros as int) * 60) / 1_000_000,
        t * 16_666 <= micros + 16_666,
{
    let q = micros / MICROS_PER_SECOND;
    let r = micros % MICROS_PER_SECOND;
    proof {
        vstd::arithmetic::div_mod::lemma_fundamental_div_mod(micros as int, 1_000_000);
        vstd::arithmetic::div_mod::lemma_hoist_over_denominator(-(r * 60), -(q * 60), 1_000_000);
        assert(-(r * 60) + (-(q * 60)) * 1_000_000 == -(micros as int) * 60);
        let c = (r * 60 + 999_999) / 1_000_000;
        vstd::arithmetic::div_mod::lemma_fundamental_div_mod(r * 60 + 999_999, 1_000_000);
        vstd::arithmetic::div_mod::lemma_fundamental_div_mod(-(r * 60), 1_000_000);
        assert((-(r * 60)) / 1_000_000 == -c);
    }
    q * TIMER_HZ + (r * TIMER_HZ + 999_999) / MICROS_PER_SECOND
}

/// Microseconds since the Unix epoch, as the system clock reads them; fails where the
/// clock reads a time before the epoch.
fn clock_micros() -> (r: Result<u128, ClockFault>)
    ensures
        r matches Err(e) ==> e == ClockFault::BeforeEpoch,
{
    match since_unix_epoch(system_now()) {
        Ok(d) => Ok(duration_micros(&d)),
        Err(_) => Err(ClockFault::BeforeEpoch),
    }
}

impl Compy {
    /// A fresh machine whose clock started at `start_micros` microseconds after the
    /// Unix epoch, drawing its random bytes from `rng`.
    pub fn with_start_time(start_micros: u128, rng: StdRng) -> (c: Compy)
        ensures
            c@ == initial_machine(start_micros),
    {
        let mut memory = [0u8; 4096];
        let font = fontset();
        for k in 0..80
            invariant
                font@ == font_bytes(),
                memory@ == Seq::new(
                    4096,
                    |j: int| if 0x50 <= j < 0x50 + k { font_bytes()[j - 0x50] } else { 0u8 },
                ),
        {
            memory[0x50 + k] = font[k];
            assert(memory@ =~= Seq::new(
                4096,
                |j: int| if 0x50 <= j < 0x50 + k + 1 { font_bytes()[j - 0x50] } else { 0u8 },
            ));
        }
        let c = Compy {
            memory,
            reg: [0; 16],
            i: 0,
            pc: PROGRAM_START,
            gfx: Screen::new(),
            delay_timer: 0,
            sound_timer: 0,
            stack: [0; 16],
            sp: 0,
            keys: [false; 16],
            key_buffer: None,
            start_time_micros: start_micros,
            latest_time_micros: start_micros,
            draw_flag: false,
            draw_ops: Vec::new(),
            rng,
        };
        assert(c@.reg =~= initial_machine(start_micros).reg);
        assert(c@.stack =~= initial_machine(start_micros).stack);
        assert(c@.keys =~= initial_machine(start_micros).keys);
        assert(c@.draw_ops =~= Seq::empty());
        c
    }

    /// The program counter moves to the next instruction.
    fn step_pc(&mut self)
        requires
            old(self).pc + 2 <= 0xFFFF,
        ensures
            final(self).rng == old(self).rng,
            final(self)@ == advance(old(self)@),
    {
        self.pc += 2;
    }

    /// The program counter skips the next instruction when `cond` holds.
    fn skip_when(&mut self, cond: bool)
        requires
            old(self).pc + (if cond { 4int } else { 2int }) <= 0xFFFF,
        ensures
            final(self).rng == old(self).rng,
            final(self)@ == skip_if(old(self)@, cond),
    {
        if cond {
            self.step_pc();
            self.step_pc();
        } else {
            self.step_pc();
        }
    }

    /// Register `x` is set to `v`.
    fn set_reg(&mut self, x: u8, v: u8)
        requires
            x < 16,
        ensures
            final(self).rng == old(self).rng,
            final(self)@ == with_reg(old(self)@, x as int, v),
    {
        self.reg[x as usize] = v;
        assert(self@.reg =~= old(self)@.reg.update(x as int, v));
    }

    /// The display is cleared, and the clearing is queued for whoever shows it.
    fn clear_display(&mut self)
        ensures
            final(self).rng == old(self).rng,
            final(self)@ == display_cleared(old(self)@),
    {
        self.gfx.clear();
        proof {
            lemma_push_view(self.draw_ops@, DrawOp::Clear);
        }
        self.draw_ops.push(DrawOp::Clear);
    }

    /// Returns from a subroutine: the stack pointer goes down, and the program counter
    /// is read from the stack there.
    fn return_from_sub(&mut self)
        requires
            1 <= old(self).sp <= 16,
        ensures
            final(self).rng == old(self).rng,
            final(self)@ == returned(old(self)@),
    {
        self.sp -= 1;
        self.pc = self.stack[self.sp];
    }

    /// Calls the subroutine at `addr`: the address after the call goes on the stack at
    /// the stack pointer, the stack pointer goes up, and the program counter becomes
    /// `addr`.
    fn subroutine(&mut self, addr: u16)
        requires
            old(self).sp < 16,
            old(self).pc + 2 <= 0xFFFF,
        ensures
            final(self).rng == old(self).rng,
            final(self)@ == called(old(self)@, addr),
    {
        self.stack[self.sp] = self.pc + 2;
        self.sp += 1;
        self.pc = addr;
        assert(self@.stack =~= old(self)@.stack.update(old(self).sp as int, (old(self).pc + 2) as u16));
    }

    /// The index register points at the glyph of `which_char`.
    fn select_char(&mut self, which_char: u8)
        ensures
            final(self).rng == old(self).rng,
            final(self)@ == glyph_selected(old(self)@, which_char),
            which_char < 16 && old(self)@.memory.subrange(0x50, 0xA0) == font_bytes()
                ==> final(self)@.memory.subrange(final(self).i as int, final(self).i + 5)
                == font_bytes().subrange(5 * which_char, 5 * which_char + 5),
    {
        proof {
            lemma_view_wf(self);
            if which_char < 16 && self@.memory.subrange(0x50, 0xA0) == font_bytes() {
                lemma_glyph_of_digit(self@, which_char);
            }
        }
        self.i = FONT_START + (which_char as u16 * 5);
    }

    /// The `size` bytes of memory from the index register on.
    fn mem_slice(&self, size: usize) -> (r: Vec<u8>)
        requires
            self.i + size <= 4096,
        ensures
            r@ == self@.memory.subrange(self.i as int, self.i + size),
    {
        let i: usize = self.i as usize;
        let mut r: Vec<u8> = Vec::new();
        for k in 0..size
            invariant
                i == self.i,
                i + size <= 4096,
                r@ == self@.memory.subrange(i as int, i + k),
        {
            r.push(self.memory[i + k]);
            assert(r@ =~= self@.memory.subrange(i as int, i + k + 1));
        }
        r
    }

    /// Executes `8XYN`, an arithmetic or logic instruction on `VX` and `VY`.
    fn exec_alu(&mut self, x: u8, y: u8, n: u8)
        requires
            x < 16,
            y < 16,
            n <= 0x7 || n == 0xE,
            old(self).pc + 2 <= 0xFFFF,
        ensures
            final(self).rng == old(self).rng,
            final(self)@ == advance(
                with_regs(old(self)@, alu_regs(old(self)@.reg, x as int, y as int, n)),
            ),
    {
        let xi = x as usize;
        let yi = y as usize;
        let vx = self.reg[xi];
        let vy = self.reg[yi];
        let ghost r0 = self.reg@;
        if n == 0x0 {
            self.reg[xi] = vy;
        } else if n == 0x1 {
            self.reg[xi] = vx | vy;
        } else if n == 0x2 {
            self.reg[xi] = vx & vy;
        } else if n == 0x3 {
            self.reg[xi] = vx ^ vy;
        } else if n == 0x4 {
            let r = vx.wrapping_add(vy);
            let carry = (vx as u16) + (vy as u16) > 0xFF;
            self.reg[xi] = r;
            self.reg[0xf] = if carry { 1 } else { 0 };
        } else if n == 0x5 {
            let r = vx.wrapping_sub(vy);
            let did_borrow = vx < vy;
            self.reg[xi] = r;
            self.reg[0xf] = if !did_borrow { 1 } else { 0 };
        } else if n == 0x6 {
            self.reg[0xf] = vx & 0x1;
            let v = self.reg[xi];
            assert(vx & 1u8 == vx % 2 && v >> 1u8 == v / 2) by (bit_vector);
            self.reg[xi] = v >> 1;
        } else if n == 0x7 {
            let r = vy.wrapping_sub(vx);
            let did_borrow = vy < vx;
            self.reg[xi] = r;
            self.reg[0xf] = if !did_borrow { 1 } else { 0 };
        } else {
            self.reg[0xf] = vx >> 7;
            let v = self.reg[xi];
            assert(vx >> 7u8 == vx / 128 && v << 1u8 == ((v * 2) % 256) as u8) by (bit_vector);
            self.reg[xi] = v << 1;
        }
        assert(self.reg@ =~= alu_regs(r0, x as int, y as int, n));
        self.step_pc();
    }

    /// Executes `DXYN`: draws the `n` bytes from `I` at (`VX`, `VY`).
    fn exec_draw(&mut self, x: u8, y: u8, n: u8)
        requires
            x < 16,
            y < 16,
            old(self).i + n <= 4096,
            sprite_fits(
                old(self)@.reg[x as int] as int,
                old(self)@.reg[y as int] as int,
                n as int,
            ),
            old(self).pc + 2 <= 0xFFFF,
        ensures
            final(self).rng == old(self).rng,
            final(self)@ == advance(draw_result(old(self)@, x as int, y as int, n)),
    {
        let vx = self.reg[x as usize];
        let vy = self.reg[y as usize];
        let sprite = self.mem_slice(n as usize);
        let (collision, updates) = self.gfx.draw_sprite(vx, vy, sprite.as_slice());
        self.reg[0xf] = if collision { 1 } else { 0 };
        proof {
            lemma_push_view(self.draw_ops@, DrawOp::Sprite(updates));
        }
        self.draw_ops.push(DrawOp::Sprite(updates));
        assert(self@ =~= draw_result(old(self)@, x as int, y as int, n));
        self.step_pc();
    }

    /// Executes one of the `FXNN` instructions that can complete.
    fn exec_misc(&mut self, x: u8, nn: u8)
        requires
            x < 16,
            nn == 0x07 || nn == 0x0A || nn == 0x15 || nn == 0x18 || nn == 0x1E || nn == 0x29
                || nn == 0x33 || nn == 0x55 || nn == 0x65,
            nn != 0x0A || old(self).key_buffer is Some ==> old(self).pc + 2 <= 0xFFFF,
            nn == 0x1E ==> old(self).i + old(self)@.reg[x as int] <= 0xFFFF,
            nn == 0x33 ==> old(self).i + 2 < 4096,
            nn == 0x55 || nn == 0x65 ==> old(self).i + x < 4096,
        ensures
            final(self).rng == old(self).rng,
            final(self)@ == misc_result(old(self)@, x as int, nn),
    {
        let xi = x as usize;
        if nn == 0x07 {
            self.set_reg(x, self.delay_timer);
            self.step_pc();
        } else if nn == 0x0A {
            if let Some(keynum) = self.key_buffer {
                self.set_reg(x, keynum);
                self.step_pc();
            }
        } else if nn == 0x15 {
            self.delay_timer = self.reg[xi];
            self.step_pc();
        } else if nn == 0x18 {
            self.sound_timer = self.reg[xi];
            self.step_pc();
        } else if nn == 0x1E {
            self.i += self.reg[xi] as u16;
            self.step_pc();
        } else if nn == 0x29 {
            self.select_char(self.reg[xi]);
            self.step_pc();
        } else if nn == 0x33 {
            let n = self.reg[xi];
            let i = self.i as usize;
            self.memory[i] = n / 100;
            self.memory[i + 1] = (n % 100) / 10;
            self.memory[i + 2] = n % 10;
            assert(self@.memory =~= bcd_memory(old(self)@.memory, i as int, n));
            self.step_pc();
        } else if nn == 0x65 {
            let i: usize = self.i as usize;
            for k in 0..xi + 1
                invariant
                    xi == x,
                    xi < 16,
                    i == self.i,
                    i + xi < 4096,
                    self@ == with_regs(old(self)@, self@.reg),
                    self.rng == old(self).rng,
                    old(self).pc + 2 <= 0xFFFF,
                    self@.reg == Seq::new(
                        16,
                        |j: int| if j < k { old(self)@.memory[i + j] } else { old(self)@.reg[j] },
                    ),
            {
                self.reg[k] = self.memory[i + k];
                assert(self@.reg =~= Seq::new(
                    16,
                    |j: int| if j < k + 1 { old(self)@.memory[i + j] } else { old(self)@.reg[j] },
                ));
            }
            assert(self@.reg =~= loaded_regs(old(self)@.reg, old(self)@.memory, i as int, x as int));
            self.step_pc();
        } else {
            let i: usize = self.i as usize;
            let ghost mem0 = self@.memory;
            for k in 0..xi + 1
                invariant
                    xi == x,
                    xi < 16,
                    i == self.i,
                    self@ == with_memory(old(self)@, self@.memory),
                self.rng == old(self).rng,
                    self.rng == old(self).rng,
                    old(self).pc + 2 <= 0xFFFF,
                    i + xi < 4096,
                    self@.reg == old(self)@.reg,
                    mem0.len() == 4096,
                    self@.memory == Seq::new(
                        4096,
                        |j: int| if i <= j < i + k { self@.reg[j - i] } else { mem0[j] },
                    ),
            {
                self.memory[i + k] = self.reg[k];
                assert(self@.memory =~= Seq::new(
                    4096,
                    |j: int| if i <= j < i + k + 1 { self@.reg[j - i] } else { mem0[j] },
                ));
            }
            assert(self@.memory =~= stored_regs(mem0, old(self)@.reg, i as int, x as int));
            self.step_pc();
        }
    }

    /// Executes `opcode`, with `random_byte` as the random value that `CXNN` masks.
    pub fn run_op_with(&mut self, opcode: u16, random_byte: u8)
        requires
            fault_of(old(self)@, opcode) is None,
        ensures
            final(self).rng == old(self).rng,
            final(self)@ == next_state(old(self)@, opcode, random_byte),
    {
        proof {
            lemma_nibbles(opcode);
        }
        let shorts: (u8, u8, u8, u8) = (
            ((opcode & 0xF000) >> 12) as u8,
            ((opcode & 0x0F00) >> 8) as u8,
            ((opcode & 0x00F0) >> 4) as u8,
            (opcode & 0x000F) as u8,
        );
        assert(shorts.0 == op_a(opcode) && shorts.1 == op_x(opcode) && shorts.2 == op_y(opcode)
            && shorts.3 == op_n(opcode));
        match shorts {
            (0x0, 0x0, 0xE, 0x0) => {
                self.clear_display();
                self.step_pc();
            },
            (0x0, 0x0, 0xE, 0xE) => {
                self.return_from_sub();
            },
            (0x1, n1, n2, n3) => {
                self.pc = addr(n1, n2, n3);
            },
            (0x2, n1, n2, n3) => {
                self.subroutine(addr(n1, n2, n3));
            },
            (0x3, x, n1, n2) => {
                let cond = self.reg[x as usize] == val(n1, n2);
                self.skip_when(cond);
            },
            (0x4, x, n1, n2) => {
                let cond = self.reg[x as usize] != val(n1, n2);
                self.skip_when(cond);
            },
            (0x5, x, y, 0x0) => {
                let cond = self.reg[x as usize] == self.reg[y as usize];
                self.skip_when(cond);
            },
            (0x6, x, n1, n2) => {
                self.set_reg(x, val(n1, n2));
                self.step_pc();
            },
            (0x7, x, n1, n2) => {
                let r = self.reg[x as usize].wrapping_add(val(n1, n2));
                self.set_reg(x, r);
                self.step_pc();
            },
            (0x8, x, y, n) => {
                self.exec_alu(x, y, n);
            },
            (0x9, x, y, 0x0) => {
                let cond = self.reg[x as usize] != self.reg[y as usize];
                self.skip_when(cond);
            },
            (0xA, n1, n2, n3) => {
                self.i = addr(n1, n2, n3);
                self.step_pc();
            },
            (0xB, n1, n2, n3) => {
                self.pc = self.reg[0] as u16 + addr(n1, n2, n3);
            },
            (0xC, x, n1, n2) => {
                self.set_reg(x, random_byte & val(n1, n2));
                self.step_pc();
            },
            (0xD, x, y, n) => {
                self.exec_draw(x, y, n);
            },
            (0xE, x, 0x9, 0xE) => {
                let keycode = self.reg[x as usize];
                let cond = self.keys[keycode as usize];
                self.skip_when(cond);
            },
            (0xE, x, 0xA, 0x1) => {
                let keycode = self.reg[x as usize];
                let cond = !self.keys[keycode as usize];
                self.skip_when(cond);
            },
            (0xF, x, n1, n2) => {
                self.exec_misc(x, val(n1, n2));
            },
            _ => {},
        }
    }

    /// What keeps `opcode` from being carried out in the current state, if anything.
    pub fn op_fault(&self, opcode: u16) -> (r: Option<Fault>)
        ensures
            r == fault_of(self@, opcode),
    {
        proof {
            lemma_nibbles(opcode);
        }
        let a = ((opcode & 0xF000) >> 12) as u8;
        let x = ((opcode & 0x0F00) >> 8) as u8;
        let y = ((opcode & 0x00F0) >> 4) as u8;
        let n = (opcode & 0x000F) as u8;
        let nn = val(y, n);
        let vx = self.reg[x as usize];
        let vy = self.reg[y as usize];
        let pc = self.pc as u32;
        let step = if pc + 2 > 0xFFFF {
            Some(Fault::ProgramCounterOverflow)
        } else {
            None
        };
        let skip_on = |c: bool| -> (r: Option<Fault>)
            ensures
                r == skip_fault(self@, c),
            {
                if pc + (if c { 4 } else { 2 }) > 0xFFFF {
                    Some(Fault::ProgramCounterOverflow)
                } else {
                    None
                }
            };
        if a == 0x0 {
            if x == 0x0 && y == 0xE && n == 0x0 {
                step
            } else if x == 0x0 && y == 0xE && n == 0xE {
                if self.sp == 0 {
                    Some(Fault::StackUnderflow)
                } else if self.sp > 16 {
                    Some(Fault::StackIndex)
                } else {
                    None
                }
            } else {
                Some(Fault::MachineCode)
            }
        } else if a == 0x1 || a == 0xB {
            None
        } else if a == 0x2 {
            if self.sp >= 16 {
                Some(Fault::StackIndex)
            } else {
                step
            }
        } else if a == 0x3 {
            skip_on(vx == nn)
        } else if a == 0x4 {
            skip_on(vx != nn)
        } else if a == 0x5 || a == 0x9 {
            if n != 0 {
                Some(Fault::BadOpcode)
            } else if a == 0x5 {
                skip_on(vx == vy)
            } else {
                skip_on(vx != vy)
            }
        } else if a == 0x6 || a == 0x7 || a == 0xA || a == 0xC {
            step
        } else if a == 0x8 {
            if n <= 0x7 || n == 0xE {
                step
            } else {
                Some(Fault::BadOpcode)
            }
        } else if a == 0xD {
            if self.i as u32 + n as u32 > 4096 {
                Some(Fault::MemoryRange)
            } else if n != 0 && vx as u32 + (vy as u32 + n as u32 - 1) * 64 + 8 > 2048 {
                Some(Fault::SpriteRange)
            } else {
                step
            }
        } else if a == 0xE {
            if nn == 0x9E || nn == 0xA1 {
                if vx >= 16 {
                    Some(Fault::KeyIndex)
                } else if nn == 0x9E {
                    skip_on(self.keys[vx as usize])
                } else {
                    skip_on(!self.keys[vx as usize])
                }
            } else {
                Some(Fault::BadOpcode)
            }
        } else {
            if nn == 0x07 || nn == 0x15 || nn == 0x18 || nn == 0x29 {
                step
            } else if nn == 0x0A {
                if self.key_buffer.is_some() {
                    step
                } else {
                    None
                }
            } else if nn == 0x1E {
                if self.i as u32 + vx as u32 > 0xFFFF {
                    Some(Fault::IndexOverflow)
                } else {
                    step
                }
            } else if nn == 0x33 {
                if self.i as u32 + 2 >= 4096 {
                    Some(Fault::MemoryRange)
                } else {
                    step
                }
            } else if nn == 0x55 || nn == 0x65 {
                if self.i as u32 + x as u32 >= 4096 {
                    Some(Fault::MemoryRange)
                } else {
                    step
                }
            } else {
                Some(Fault::BadOpcode)
            }
        }
    }

    /// Executes `opcode`; `CXNN` draws its random byte from the machine's generator
    /// (no other instruction draws one).
    pub fn run_op(&mut self, opcode: u16)
        requires
            fault_of(old(self)@, opcode) is None,
        ensures
            op_a(opcode) != 0xC ==> final(self).rng == old(self).rng,
            exists|rnd: u8| final(self)@ == #[trigger] next_state(old(self)@, opcode, rnd),
    {
        let rnd = self.random_byte_for(opcode);
        self.run_op_with(opcode, rnd);
    }

    /// A random byte from the machine's generator where `opcode` is a `CXNN`, which
    /// masks it; 0 for every other instruction, which draws nothing.
    fn random_byte_for(&mut self, opcode: u16) -> (rnd: u8)
        ensures
            op_a(opcode) != 0xC ==> final(self).rng == old(self).rng,
            op_a(opcode) != 0xC ==> rnd == 0,
            final(self)@ == old(self)@,
    {
        proof {
            lemma_nibbles(opcode);
        }
        if (opcode & 0xF000) >> 12 == 0xC {
            random_byte(&mut self.rng)
        } else {
            0
        }
    }

    /// Drives the timers from a clock reading of `now_micros` microseconds after the
    /// Unix epoch: both count down by the 60 Hz ticks since the latest reading.
    pub fn update_timers(&mut self, now_micros: u128) -> (r: Result<(), ClockFault>)
        ensures
            final(self).rng == old(self).rng,
            match timers_after(old(self)@, now_micros) {
                Ok(m) => r is Ok && final(self)@ == m,
                Err(e) => r == Err::<(), ClockFault>(e) && final(self)@ == old(self)@,
            },
    {
        if now_micros < self.latest_time_micros {
            return Err(ClockFault::Backwards);
        }
        let ghost s = self.start_time_micros as int;
        let ticks = if self.start_time_micros <= self.latest_time_micros {
            let ticks_now = ticks_in(now_micros - self.start_time_micros);
            let ticks_latest = ticks_in(self.latest_time_micros - self.start_time_micros);
            proof {
                vstd::arithmetic::div_mod::lemma_div_is_ordered(
                    (self.latest_time_micros - s) * 60,
                    (now_micros - s) * 60,
                    1_000_000,
                );
            }
            ticks_now - ticks_latest
        } else if self.start_time_micros <= now_micros {
            ticks_in(now_micros - self.start_time_micros) + ticks_up_to(
                self.start_time_micros - self.latest_time_micros,
            )
        } else {
            let before_latest = ticks_up_to(self.start_time_micros - self.latest_time_micros);
            let before_now = ticks_up_to(self.start_time_micros - now_micros);
            proof {
                vstd::arithmetic::div_mod::lemma_div_is_ordered(
                    (self.latest_time_micros - s) * 60,
                    (now_micros - s) * 60,
                    1_000_000,
                );
            }
            before_latest - before_now
        };
        assert(ticks == ticks_since_start(old(self)@, now_micros as int) - ticks_since_start(
            old(self)@,
            self.latest_time_micros as int,
        ));
        self.latest_time_micros = now_micros;
        self.sound_timer = if ticks >= self.sound_timer as u128 {
            0
        } else {
            self.sound_timer - ticks as u8
        };
        self.delay_timer = if ticks >= self.delay_timer as u128 {
            0
        } else {
            self.delay_timer - ticks as u8
        };
        Ok(())
    }

    /// What keeps the next cycle from executing its instruction, if anything.
    pub fn cycle_fault(&self) -> (r: Option<Fault>)
        ensures
            r == cycle_fault(self@),
    {
        let pc = self.pc as usize;
        if pc + 1 >= MEMORY_SIZE {
            return Some(Fault::FetchRange);
        }
        let opcode: u16 = ((self.memory[pc] as u16) << 8) | (self.memory[pc + 1] as u16);
        self.op_fault(opcode)
    }

    /// One cycle: executes the instruction at the program counter, empties the key
    /// buffer, then reads the clock and drives the timers from it. The instruction is
    /// executed whatever the clock reads; where the reading cannot drive the timers,
    /// they are left as they were and the reason is returned.
    pub fn single_cycle(&mut self) -> (r: Result<(), ClockFault>)
        requires
            cycle_fault(old(self)@) is None,
        ensures
            op_a(fetch(old(self)@)) != 0xC ==> final(self).rng == old(self).rng,
            exists|rnd: u8|
                match r {
                    Ok(()) => timers_after(#[trigger] executed(old(self)@, rnd), final(self).latest_time_micros)
                        == Ok::<Machine, ClockFault>(final(self)@),
                    Err(_) => final(self)@ == executed(old(self)@, rnd),
                },
    {
        let pc = self.pc as usize;
        let opcode: u16 = ((self.memory[pc] as u16) << 8) | (self.memory[pc + 1] as u16);
        let rnd = self.random_byte_for(opcode);
        self.run_op_with(opcode, rnd);
        self.key_buffer = None;
        assert(self@ == executed(old(self)@, rnd));
        let now_micros = match clock_micros() {
            Ok(t) => t,
            Err(e) => {
                return Err(e);
            },
        };
        self.update_timers(now_micros)
    }

    /// A fresh machine whose clock starts now, with a generator seeded from the
    /// operating system. Fails where the system clock reads a time before the Unix
    /// epoch, or where the operating system gives no entropy.
    pub fn new() -> (r: Result<Compy, StartFault>)
        ensures
            r matches Ok(c) ==> c@ == initial_machine(c.start_time_micros),
    {
        match clock_micros() {
            Ok(start_micros) => match rng_from_os() {
                Ok(rng) => Ok(Compy::with_start_time(start_micros, rng)),
                Err(_) => Err(StartFault::NoEntropy),
            },
            Err(_) => Err(StartFault::BeforeEpoch),
        }
    }

    /// Writes the program `rom` into memory from `PROGRAM_START` on.
    pub fn load_rom(&mut self, rom: &[u8])
        requires
            rom@.len() <= MAX_ROM_SIZE,
        ensures
            final(self).rng == old(self).rng,
            final(self)@ == with_memory(old(self)@, rom_loaded(old(self)@.memory, rom@)),
    {
        let ghost mem0 = self@.memory;
        for k in 0..rom.len()
            invariant
                rom@.len() <= MAX_ROM_SIZE,
                mem0.len() == 4096,
                self@ == with_memory(old(self)@, self@.memory),
                self.rng == old(self).rng,
                self@.memory == Seq::new(
                    4096,
                    |j: int| if 0x200 <= j < 0x200 + k { rom@[j - 0x200] } else { mem0[j] },
                ),
        {
            self.memory[0x200 + k] = rom[k];
            assert(self@.memory =~= Seq::new(
                4096,
                |j: int| if 0x200 <= j < 0x200 + k + 1 { rom@[j - 0x200] } else { mem0[j] },
            ));
        }
        assert(self@.memory =~= rom_loaded(mem0, rom@));
    }

    /// Records that keyboard key `keycode` went down (`state`) or up.
    pub fn set_key_state(&mut self, state: bool, keycode: i32)
        ensures
            final(self).rng == old(self).rng,
            final(self)@ == key_state_set(old(self)@, state, keycode),
    {
        if let Some(keynum) = keynum_for_keycode(keycode) {
            proof {
                crate::keypad::lemma_layout_is_one_to_one(keycode, keycode, 0);
            }
            self.keys[keynum as usize] = state;
            self.key_buffer = Some(keynum);
            assert(self@.keys =~= old(self)@.keys.update(keynum as int, state));
        }
    }

    /// Drops the queued drawing operations that come before the last `Clear`, which
    /// stays; changes nothing where no operation clears.
    pub fn retain_from_last_clear(&mut self)
        ensures
            final(self).rng == old(self).rng,
            final(self)@ == with_draw_ops(old(self)@, from_last_clear(old(self)@.draw_ops)),
    {
        let ghost ops = self@.draw_ops;
        let mut clear_i: Option<usize> = None;
        let len = self.draw_ops.len();
        for i in 0..len
            invariant
                len == self.draw_ops@.len(),
                ops == self@.draw_ops,
                ops.len() == len,
                clear_i matches Some(c) ==> c < i,
                clear_i matches Some(c) ==> last_clear_in(ops, i as int) == Some(c as int),
                clear_i is None ==> last_clear_in(ops, i as int) is None,
        {
            let is_clear = match &self.draw_ops[i] {
                DrawOp::Clear => true,
                DrawOp::Sprite(_) => false,
            };
            assert(ops[i as int] == self.draw_ops@[i as int]@);
            if is_clear {
                clear_i = Some(i);
            }
        }
        if let Some(clear_index) = clear_i {
            let kept = self.draw_ops.split_off(clear_index);
            self.draw_ops = kept;
            assert(self@.draw_ops =~= ops.skip(clear_index as int));
        }
        assert(self@ =~= with_draw_ops(old(self)@, from_last_clear(ops)));
    }
}

/// Every machine has the sizes of `machine_wf`.
pub proof fn lemma_view_wf(c: &Compy)
    ensures
        machine_wf(c@),
{
    c.gfx.lemma_view_len();
}

/// The three nibbles after the first make up `NNN`, the opcode's low twelve bits, and
/// the last two make up `NN`, its low byte.
pub proof fn lemma_opcode_fields(op: u16)
    ensures
        op_nnn(op) == op & 0x0FFFu16,
        op_nn(op) == op & 0x00FFu16,
        op == op_a(op) as int * 4096 + op_nnn(op),
{
    lemma_nibbles(op);
    assert(op & 0x0FFFu16 == ((op & 0x0F00u16) >> 8u16) * 256 + ((op & 0x00F0u16) >> 4u16) * 16 + (
    op & 0x000Fu16)) by (bit_vector);
    assert(op & 0x00FFu16 == ((op & 0x00F0u16) >> 4u16) * 16 + (op & 0x000Fu16)) by (bit_vector);
    assert(op == ((op & 0xF000u16) >> 12u16) * 4096 + (op & 0x0FFFu16)) by (bit_vector);
}

/// A fresh machine has the sizes of `machine_wf`, and every operation keeps them:
/// executing an instruction that can be carried out, driving the timers, pressing or
/// releasing a key, loading a program that fits, and dropping drawing operations.
pub proof fn lemma_operations_keep_wf(
    m: Machine,
    op: u16,
    rnd: u8,
    now: u128,
    down: bool,
    keycode: i32,
    rom: Seq<u8>,
    start: u128,
)
    requires
        machine_wf(m),
    ensures
        machine_wf(initial_machine(start)),
        fault_of(m, op) is None ==> machine_wf(next_state(m, op, rnd)),
        timers_after(m, now) matches Ok(m2) ==> machine_wf(m2),
        machine_wf(key_state_set(m, down, keycode)),
        rom.len() <= MAX_ROM_SIZE ==> machine_wf(with_memory(m, rom_loaded(m.memory, rom))),
        machine_wf(with_draw_ops(m, from_last_clear(m.draw_ops))),
{
    lemma_nibbles(op);
    crate::keypad::lemma_layout_is_one_to_one(keycode, keycode, 0);
}

/// A call followed by a return resumes at the instruction after the call, with the
/// stack pointer back where it was and the return address left on the stack; nothing
/// else changes.
pub proof fn lemma_call_then_return(m: Machine, target: u16, r1: u8, r2: u8)
    requires
        machine_wf(m),
        m.sp < 16,
        m.pc + 2 <= 0xFFFF,
        target < 0x1000,
    ensures
        fault_of(m, (0x2000 + target) as u16) is None,
        fault_of(next_state(m, (0x2000 + target) as u16, r1), 0x00EE) is None,
        next_state(next_state(m, (0x2000 + target) as u16, r1), 0x00EE, r2) == (Machine {
            pc: (m.pc + 2) as u16,
            stack: m.stack.update(m.sp as int, (m.pc + 2) as u16),
            ..m
        }),
{
    let call = (0x2000 + target) as u16;
    lemma_nibbles(call);
    lemma_nibbles(0x00EEu16);
    let m1 = next_state(m, call, r1);
    assert(m1 == called(m, target));
    assert(next_state(m1, 0x00EE, r2) =~= Machine {
        pc: (m.pc + 2) as u16,
        stack: m.stack.update(m.sp as int, (m.pc + 2) as u16),
        ..m
    });
}

/// `8XY4` keeps the carry in `VF`: `256 * VF + VX` is the sum of the old `VX` and
/// `VY`. `8XY5` and `8XY7` keep "no borrow" in `VF`: `VX` is the difference plus 256
/// where it borrowed. (`X` other than `F`.)
pub proof fn lemma_carry_and_borrow(reg: Seq<u8>, x: int, y: int)
    requires
        reg.len() == 16,
        0 <= x < 15,
        0 <= y < 16,
    ensures
        alu_regs(reg, x, y, 0x4)[15] * 256 + alu_regs(reg, x, y, 0x4)[x] == reg[x] + reg[y],
        alu_regs(reg, x, y, 0x5)[x] == reg[x] - reg[y] + 256 * (1 - alu_regs(reg, x, y, 0x5)[15]),
        alu_regs(reg, x, y, 0x7)[x] == reg[y] - reg[x] + 256 * (1 - alu_regs(reg, x, y, 0x7)[15]),
{
}

/// `FX33` writes the three decimal digits of `VX`, hundreds first.
pub proof fn lemma_bcd_digits(memory: Seq<u8>, i: int, v: u8)
    requires
        0 <= i,
        i + 2 < memory.len(),
    ensures
        bcd_memory(memory, i, v)[i] < 10,
        bcd_memory(memory, i, v)[i + 1] < 10,
        bcd_memory(memory, i, v)[i + 2] < 10,
        100 * bcd_memory(memory, i, v)[i] + 10 * bcd_memory(memory, i, v)[i + 1] + bcd_memory(
            memory,
            i,
            v,
        )[i + 2] == v,
{
}

/// A fresh machine holds the font at `FONT_START`.
pub proof fn lemma_fresh_machine_holds_font(start: u128)
    ensures
        initial_machine(start).memory.subrange(0x50, 0xA0) == font_bytes(),
{
    assert(initial_machine(start).memory.subrange(0x50, 0xA0) =~= font_bytes());
}

/// On any machine whose memory holds the font at `FONT_START`, `FX29` points the index
/// register at the five-byte glyph of the digit in `VX`.
pub proof fn lemma_glyph_of_digit(m: Machine, d: u8)
    requires
        machine_wf(m),
        m.memory.subrange(0x50, 0xA0) == font_bytes(),
        d < 16,
    ensures
        glyph_selected(m, d).i == 0x50 + 5 * d,
        glyph_selected(m, d).memory.subrange(
            glyph_selected(m, d).i as int,
            glyph_selected(m, d).i + 5,
        ) == font_bytes().subrange(5 * d, 5 * d + 5),
{
    let g = glyph_selected(m, d);
    assert forall|k: int| 0 <= k < 5 implies #[trigger] g.memory.subrange(g.i as int, g.i + 5)[k]
        == font_bytes().subrange(5 * d, 5 * d + 5)[k] by {
        assert(m.memory.subrange(0x50, 0xA0)[5 * d + k] == m.memory[0x50 + 5 * d + k]);
    }
    assert(g.memory.subrange(g.i as int, g.i + 5) =~= font_bytes().subrange(5 * d, 5 * d + 5));
}

/// Only `CXNN` depends on the random byte, and it keeps in `VX` only bits that are set
/// in `NN`.
pub proof fn lemma_randomness_only_in_cxnn(m: Machine, op: u16, r1: u8, r2: u8)
    requires
        machine_wf(m),
    ensures
        op_a(op) != 0xC ==> next_state(m, op, r1) == next_state(m, op, r2),
        op_a(op) == 0xC ==> next_state(m, op, r1).reg[op_x(op) as int] & !op_nn(op) == 0,
{
    lemma_nibbles(op);
    let nn = op_nn(op);
    assert((r1 & nn) & !nn == 0) by (bit_vector);
}

/// The timers count down and never rise: instructions leave the clock readings alone;
/// where the readings come in order (the latest, then `now1`, then `now2`), each
/// drives the timers without fault, neither timer rises, and reading the clock at
/// `now1` and then at `now2` counts down exactly as much as reading it at `now2` alone.
pub proof fn lemma_timers_count_down(m: Machine, op: u16, rnd: u8, now1: u128, now2: u128)
    requires
        m.latest_time_micros <= now1 <= now2,
    ensures
        next_state(m, op, rnd).start_time_micros == m.start_time_micros,
        next_state(m, op, rnd).latest_time_micros == m.latest_time_micros,
        timers_after(m, now1) is Ok,
        timers_after(m, now1)->Ok_0.delay_timer <= m.delay_timer,
        timers_after(m, now1)->Ok_0.sound_timer <= m.sound_timer,
        timers_after(timers_after(m, now1)->Ok_0, now2) == timers_after(m, now2),
{
    let s = m.start_time_micros as int;
    vstd::arithmetic::div_mod::lemma_div_is_ordered(
        (m.latest_time_micros - s) * 60,
        (now1 - s) * 60,
        1_000_000,
    );
    vstd::arithmetic::div_mod::lemma_div_is_ordered((now1 - s) * 60, (now2 - s) * 60, 1_000_000);
    let m1 = timers_after(m, now1)->Ok_0;
    assert(timers_after(m1, now2)->Ok_0 =~= timers_after(m, now2)->Ok_0);
}

/// A key pressed on the keyboard is what `FX0A` (wait for a key) then reads into
/// `VX`, and the keypad shows that key as down.
pub proof fn lemma_key_press_is_read(m: Machine, keycode: i32, x: u8, rnd: u8)
    requires
        machine_wf(m),
        keypad_value(keycode) is Some,
        x < 16,
        m.pc + 2 <= 0xFFFF,
    ensures
        fault_of(key_state_set(m, true, keycode), (0xF00A + x * 256) as u16) is None,
        next_state(key_state_set(m, true, keycode), (0xF00A + x * 256) as u16, rnd).reg[x as int]
            == keypad_value(keycode)->0,
        next_state(key_state_set(m, true, keycode), (0xF00A + x * 256) as u16, rnd).keys[keypad_value(
            keycode,
        )->0 as int],
{
    let op = (0xF00A + x * 256) as u16;
    lemma_nibbles(op);
    crate::keypad::lemma_layout_is_one_to_one(keycode, keycode, 0);
    let xx = x as u16;
    assert(((op & 0xF000u16) >> 12u16) == 0xF && ((op & 0x0F00u16) >> 8u16) == xx && ((op
        & 0x00F0u16) >> 4u16) == 0 && (op & 0x000Fu16) == 0xA) by (bit_vector)
        requires
            xx < 16,
            op == (0xF00Au16 + xx * 256u16) as u16,
    ;
}

/// `last_clear_in` finds the last `Clear` among the first `n` operations.
proof fn lemma_last_clear_found(ops: Seq<DrawOpView>, n: int)
    requires
        0 <= n <= ops.len(),
    ensures
        match last_clear_in(ops, n) {
            Some(k) => 0 <= k < n && ops[k] is Clear && forall|j: int|
                k < j < n ==> !(#[trigger] ops[j] is Clear),
            None => forall|j: int| 0 <= j < n ==> !(#[trigger] ops[j] is Clear),
        },
    decreases n,
{
    if n > 0 {
        lemma_last_clear_found(ops, n - 1);
    }
}

/// A `Clear` at `k` with none after it, up to `n`, is the last one found there.
proof fn lemma_last_clear_is(ops: Seq<DrawOpView>, k: int, n: int)
    requires
        0 <= k < n <= ops.len(),
        ops[k] is Clear,
        forall|j: int| k < j < n ==> !(#[trigger] ops[j] is Clear),
    ensures
        last_clear_in(ops, n) == Some(k),
    decreases n,
{
    if n - 1 > k {
        lemma_last_clear_is(ops, k, n - 1);
    }
}

/// Dropping the drawing operations before the last `Clear` a second time drops
/// nothing more, and what is kept starts with that `Clear` where there is one.
pub proof fn lemma_retain_from_last_clear_idempotent(ops: Seq<DrawOpView>)
    ensures
        from_last_clear(from_last_clear(ops)) == from_last_clear(ops),
        last_clear_in(ops, ops.len() as int) is Some ==> from_last_clear(ops)[0] is Clear,
{
    lemma_last_clear_found(ops, ops.len() as int);
    match last_clear_in(ops, ops.len() as int) {
        Some(k) => {
            let kept = ops.skip(k);
            assert forall|j: int| 0 < j < kept.len() implies !(#[trigger] kept[j] is Clear) by {
                assert(kept[j] == ops[k + j]);
            }
            lemma_last_clear_is(kept, 0, kept.len() as int);
            assert(kept.skip(0) =~= kept);
        },
        None => {},
    }
}

/// The fetched opcode is the byte at the program counter times 256 plus the byte after
/// it.
pub proof fn lemma_fetch(m: Machine)
    requires
        machine_wf(m),
        m.pc + 1 < 4096,
    ensures
        fetch(m) == m.memory[m.pc as int] * 256 + m.memory[m.pc + 1],
{
    let a = m.memory[m.pc as int];
    let b = m.memory[m.pc + 1];
    assert(((a as u16) << 8u16) | (b as u16) == (a as u16) * 256 + (b as u16)) by (bit_vector);
}

/// Which opcodes are instructions: `fault_of` reports a bad opcode exactly for the
/// encodings that no instruction has, and a machine-code routine exactly for `0NNN`
/// other than `00E0` and `00EE`; jumps never fault, and every other instruction that
/// only moves the program counter on is carried out wherever it can move on.
pub proof fn lemma_instruction_set(m: Machine, op: u16)
    requires
        machine_wf(m),
    ensures
        fault_of(m, op) == Some(Fault::BadOpcode) <==> {
            let a = op / 4096;
            let n = op % 16;
            let nn = op % 256;
            ||| (a == 0x5 || a == 0x9) && n != 0
            ||| a == 0x8 && !(n <= 0x7 || n == 0xE)
            ||| a == 0xE && nn != 0x9E && nn != 0xA1
            ||| a == 0xF && nn != 0x07 && nn != 0x0A && nn != 0x15 && nn != 0x18 && nn != 0x1E
                && nn != 0x29 && nn != 0x33 && nn != 0x55 && nn != 0x65
        },
        fault_of(m, op) == Some(Fault::MachineCode) <==> op < 0x1000 && op != 0x00E0 && op
            != 0x00EE,
        op / 4096 == 0x1 || op / 4096 == 0xB ==> fault_of(m, op) is None,
        (op / 4096 == 0x6 || op / 4096 == 0x7 || op / 4096 == 0xA || op / 4096 == 0xC || (op
            / 4096 == 0x8 && (op % 16 <= 0x7 || op % 16 == 0xE))) && m.pc + 2 <= 0xFFFF
            ==> fault_of(m, op) is None,
{
    lemma_nibbles(op);
}

/// Screen, jump, call and return instructions: `00E0` darkens every pixel and queues a
/// clear; `00EE` pops the return address; `1NNN` jumps; `2NNN` pushes the address after
/// it and jumps; `BNNN` jumps to `NNN + V0`. None of them touches the registers.
pub proof fn lemma_flow_instructions(m: Machine, op: u16, rnd: u8, next: Machine)
    requires
        machine_wf(m),
        fault_of(m, op) is None,
        next == next_state(m, op, rnd),
        op / 4096 <= 0x2 || op / 4096 == 0xB,
    ensures
        next.reg == m.reg,
        next.memory == m.memory,
        op == 0x00E0 ==> (forall|k: int| 0 <= k < 2048 ==> !#[trigger] next.pixels[k]) && next.draw_ops
            == m.draw_ops.push(DrawOpView::Clear) && next.pc == m.pc + 2 && next.sp == m.sp,
        op == 0x00EE ==> next.sp == m.sp - 1 && next.pc == m.stack[m.sp - 1] && next.stack
            == m.stack && next.pixels == m.pixels,
        op / 4096 == 0x1 ==> next.pc == op % 4096 && next.sp == m.sp && next.stack == m.stack
            && next.i == m.i && next.pixels == m.pixels,
        op / 4096 == 0x2 ==> next.pc == op % 4096 && next.sp == m.sp + 1 && next.stack[m.sp as int]
            == m.pc + 2 && (forall|k: int|
            0 <= k < 16 && k != m.sp ==> #[trigger] next.stack[k] == m.stack[k]) && next.pixels
            == m.pixels,
        op / 4096 == 0xB ==> next.pc == m.reg[0] + op % 4096 && next.sp == m.sp && next.i
            == m.i,
{
    lemma_nibbles(op);
}

/// Skip instructions move the program counter on by 4 where their condition holds
/// and by 2 otherwise, and change nothing else: `3XNN` on `VX == NN`, `4XNN` on
/// `VX != NN`, `5XY0` on `VX == VY`, `9XY0` on `VX != VY`, `EX9E` on key `VX` down,
/// `EXA1` on key `VX` up.
pub proof fn lemma_skip_instructions(m: Machine, op: u16, rnd: u8, next: Machine)
    requires
        machine_wf(m),
        fault_of(m, op) is None,
        next == next_state(m, op, rnd),
        op / 4096 == 0x3 || op / 4096 == 0x4 || op / 4096 == 0x5 || op / 4096 == 0x9 || op
            / 4096 == 0xE,
    ensures
        next == (Machine { pc: next.pc, ..m }),
        ({
            let a = op / 4096;
            let vx = m.reg[(op as int / 256) % 16];
            let vy = m.reg[(op as int / 16) % 16];
            let nn = op % 256;
            let cond = if a == 0x3 {
                vx == nn
            } else if a == 0x4 {
                vx != nn
            } else if a == 0x5 {
                vx == vy
            } else if a == 0x9 {
                vx != vy
            } else if nn == 0x9E {
                m.keys[vx as int]
            } else {
                !m.keys[vx as int]
            };
            next.pc == m.pc + if cond { 4int } else { 2int }
        }),
{
    lemma_nibbles(op);
    assert(next =~= Machine { pc: next.pc, ..m });
}

/// Register and index loads: `6XNN` sets `VX` to `NN`, `7XNN` adds `NN` to `VX` modulo
/// 256 (leaving `VF` alone), `CXNN` sets `VX` to the random byte masked by `NN`, and
/// `ANNN` sets `I` to `NNN`. No other register changes, and the program counter moves
/// on by 2.
pub proof fn lemma_load_instructions(m: Machine, op: u16, rnd: u8, next: Machine)
    requires
        machine_wf(m),
        fault_of(m, op) is None,
        next == next_state(m, op, rnd),
        op / 4096 == 0x6 || op / 4096 == 0x7 || op / 4096 == 0xC || op / 4096 == 0xA,
    ensures
        next.pc == m.pc + 2,
        next.memory == m.memory,
        next.pixels == m.pixels,
        forall|k: int|
            0 <= k < 16 && k != (op as int / 256) % 16 ==> #[trigger] next.reg[k] == m.reg[k],
        op / 4096 == 0x6 ==> next.reg[(op as int / 256) % 16] == op % 256 && next.i == m.i,
        op / 4096 == 0x7 ==> next.reg[(op as int / 256) % 16] == (m.reg[(op as int / 256) % 16] + op % 256)
            % 256 && next.i == m.i,
        op / 4096 == 0xC ==> next.reg[(op as int / 256) % 16] == rnd & ((op % 256) as u8) && next.i
            == m.i,
        op / 4096 == 0xA ==> next.i == op % 4096 && next.reg == m.reg,
{
    lemma_nibbles(op);
}

/// Arithmetic and logic instructions `8XYN` (with `X` other than `F`): `VX` becomes
/// `VY`, `VX | VY`, `VX & VY`, `VX ^ VY`, the sum with the carry in `VF`, the
/// difference `VX - VY` or `VY - VX` modulo 256 with "no borrow" in `VF`, or `VX`
/// shifted by one bit with the bit shifted out in `VF`. No other register changes, and
/// the program counter moves on by 2.
pub proof fn lemma_alu_instructions(m: Machine, op: u16, rnd: u8, next: Machine)
    requires
        machine_wf(m),
        fault_of(m, op) is None,
        next == next_state(m, op, rnd),
        op / 4096 == 0x8,
        (op as int / 256) % 16 != 15,
    ensures
        next.pc == m.pc + 2,
        next.memory == m.memory,
        next.i == m.i,
        ({
            let x = (op as int / 256) % 16;
            let y = (op as int / 16) % 16;
            let n = op as int % 16;
            let vx = m.reg[x];
            let vy = m.reg[y];
            &&& forall|k: int| 0 <= k < 15 && k != x ==> #[trigger] next.reg[k] == m.reg[k]
            &&& n <= 0x3 ==> next.reg[15] == m.reg[15]
            &&& n == 0x0 ==> next.reg[x] == vy
            &&& n == 0x1 ==> next.reg[x] == vx | vy
            &&& n == 0x2 ==> next.reg[x] == vx & vy
            &&& n == 0x3 ==> next.reg[x] == vx ^ vy
            &&& n == 0x4 ==> next.reg[x] + 256 * next.reg[15] == vx + vy && next.reg[15] <= 1
            &&& n == 0x5 ==> next.reg[x] == (vx - vy + 256) % 256 && next.reg[15] == if vx >= vy {
                1int
            } else {
                0int
            }
            &&& n == 0x7 ==> next.reg[x] == (vy - vx + 256) % 256 && next.reg[15] == if vy >= vx {
                1int
            } else {
                0int
            }
            &&& n == 0x6 ==> next.reg[x] == vx / 2 && next.reg[15] == vx % 2
            &&& n == 0xE ==> next.reg[x] == (vx * 2) % 256 && next.reg[15] == vx / 128
        }),
{
    lemma_nibbles(op);
}

/// `DXYN` draws the `N` bytes of memory from `I` at (`VX`, `VY`), sets `VF` to 1
/// exactly where some lit pixel went dark and to 0 otherwise, queues the pixel
/// updates, and moves the program counter on by 2.
pub proof fn lemma_draw_instruction(m: Machine, op: u16, rnd: u8, next: Machine)
    requires
        machine_wf(m),
        fault_of(m, op) is None,
        next == next_state(m, op, rnd),
        op / 4096 == 0xD,
    ensures
        ({
            let vx = m.reg[(op as int / 256) % 16] as int;
            let vy = m.reg[(op as int / 16) % 16] as int;
            let sprite = m.memory.subrange(m.i as int, m.i + op % 16);
            &&& next.pixels == drawn_pixels(m.pixels, vx, vy, sprite)
            &&& next.reg[15] == if exists|k: int|
                0 <= k < 2048 && #[trigger] m.pixels[k] && !next.pixels[k] {
                1int
            } else {
                0int
            }
            &&& next.draw_ops == m.draw_ops.push(
                DrawOpView::Sprite(sprite_updates(vx, vy, sprite)),
            )
        }),
        forall|k: int| 0 <= k < 15 ==> #[trigger] next.reg[k] == m.reg[k],
        next.memory == m.memory,
        next.pc == m.pc + 2,
{
    lemma_nibbles(op);
    let vx = m.reg[(op as int / 256) % 16] as int;
    let vy = m.reg[(op as int / 16) % 16] as int;
    let sprite = m.memory.subrange(m.i as int, m.i + op % 16);
    crate::graphics::lemma_collision_covers_every_row(m.pixels, vx, vy, sprite, Seq::empty());
}

/// `FXNN` instructions: `FX07` reads the delay timer into `VX`; `FX0A` reads the
/// buffered key into `VX`, or changes nothing at all while no key is buffered; `FX15`
/// and `FX18` set the delay and sound timers from `VX`; `FX1E` adds `VX` to `I`;
/// `FX29` points `I` at the glyph of digit `VX`; `FX33` writes the decimal digits of
/// `VX`; `FX55` stores `V0` to `VX` at `I`; `FX65` loads them from there. Each that
/// completes moves the program counter on by 2.
pub proof fn lemma_misc_instructions(m: Machine, op: u16, rnd: u8, next: Machine)
    requires
        machine_wf(m),
        fault_of(m, op) is None,
        next == next_state(m, op, rnd),
        op / 4096 == 0xF,
    ensures
        ({
            let x = (op as int / 256) % 16;
            let nn = op as int % 256;
            let vx = m.reg[x];
            let i = m.i as int;
            &&& nn == 0x07 ==> next == (Machine { pc: (m.pc + 2) as u16, reg: m.reg.update(x, m.delay_timer), ..m })
            &&& nn == 0x0A && m.key_buffer is None ==> next == m
            &&& nn == 0x0A && m.key_buffer is Some ==> next == (Machine {
                pc: (m.pc + 2) as u16,
                reg: m.reg.update(x, m.key_buffer->0),
                ..m
            })
            &&& nn == 0x15 ==> next == (Machine { pc: (m.pc + 2) as u16, delay_timer: vx, ..m })
            &&& nn == 0x18 ==> next == (Machine { pc: (m.pc + 2) as u16, sound_timer: vx, ..m })
            &&& nn == 0x1E ==> next == (Machine { pc: (m.pc + 2) as u16, i: (i + vx) as u16, ..m })
            &&& nn == 0x29 ==> next == (Machine {
                pc: (m.pc + 2) as u16,
                i: (0x50 + 5 * vx) as u16,
                ..m
            })
            &&& nn == 0x33 ==> next.memory[i] * 100 + next.memory[i + 1] * 10 + next.memory[i + 2]
                == vx && next.memory[i] < 10 && next.memory[i + 1] < 10 && next.memory[i + 2] < 10
                && next.reg == m.reg && next.pc == m.pc + 2
            &&& nn == 0x55 ==> (forall|k: int| 0 <= k <= x ==> #[trigger] next.memory[i + k] == m.reg[k])
                && (forall|k: int|
                0 <= k < 4096 && (k < i || k > i + x) ==> #[trigger] next.memory[k] == m.memory[k])
                && next.reg == m.reg && next.pc == m.pc + 2
            &&& nn == 0x65 ==> (forall|k: int| 0 <= k <= x ==> #[trigger] next.reg[k] == m.memory[i + k])
                && (forall|k: int| x < k < 16 ==> #[trigger] next.reg[k] == m.reg[k])
                && next.memory == m.memory && next.pc == m.pc + 2
        }),
{
    lemma_nibbles(op);
    let x = (op as int / 256) % 16;
    let nn = op as int % 256;
    if nn == 0x07 || nn == 0x0A || nn == 0x15 || nn == 0x18 || nn == 0x1E || nn == 0x29 {
        assert(next =~= misc_result(m, x, nn as u8));
    }
}

/// Loading a program writes every one of its bytes from `0x200` on and leaves the rest
/// of memory as it was.
pub proof fn lemma_rom_loaded(memory: Seq<u8>, rom: Seq<u8>)
    requires
        memory.len() == 4096,
        rom.len() <= MAX_ROM_SIZE,
    ensures
        rom_loaded(memory, rom).len() == 4096,
        forall|k: int| 0 <= k < rom.len() ==> #[trigger] rom_loaded(memory, rom)[0x200 + k] == rom[k],
        forall|k: int|
            0 <= k < 4096 && (k < 0x200 || k >= 0x200 + rom.len()) ==> #[trigger] rom_loaded(
                memory,
                rom,
            )[k] == memory[k],
{
}

/// Both timers count down by the same number of ticks: the whole 60 Hz ticks between
/// the latest reading and `now` on the grid that begins at the start reading. Each
/// drops by that number or to zero, equal timers stay equal, the latest reading
/// becomes `now`, and one second of clock time is sixty ticks.
pub proof fn lemma_timers_tick_together(m: Machine, now: u128)
    requires
        now >= m.latest_time_micros,
    ensures
        timers_after(m, now) is Ok,
        ({
            let m2 = timers_after(m, now)->Ok_0;
            let s = m.start_time_micros as int;
            let ticks = ((now - s) * 60) / 1_000_000 - ((m.latest_time_micros - s) * 60) / 1_000_000;
            &&& ticks >= 0
            &&& m2.latest_time_micros == now
            &&& m.delay_timer - m2.delay_timer == if ticks < m.delay_timer { ticks } else { m.delay_timer as int }
            &&& m.sound_timer - m2.sound_timer == if ticks < m.sound_timer { ticks } else { m.sound_timer as int }
            &&& m.delay_timer == m.sound_timer ==> m2.delay_timer == m2.sound_timer
            &&& now == m.latest_time_micros + 1_000_000 ==> ticks == 60
        }),
{
    let s = m.start_time_micros as int;
    vstd::arithmetic::div_mod::lemma_div_is_ordered(
        (m.latest_time_micros - s) * 60,
        (now - s) * 60,
        1_000_000,
    );
    if now == m.latest_time_micros + 1_000_000 {
        vstd::arithmetic::div_mod::lemma_hoist_over_denominator(
            (m.latest_time_micros - s) * 60,
            60,
            1_000_000,
        );
    }
}

/// Keeping the drawing operations from the last `Clear` on keeps a tail of the queue:
/// all of it where nothing clears, and otherwise a tail that starts with a `Clear` and
/// holds no other.
pub proof fn lemma_retained_tail(ops: Seq<DrawOpView>)
    ensures
        from_last_clear(ops).len() <= ops.len(),
        forall|k: int|
            0 <= k < from_last_clear(ops).len() ==> #[trigger] from_last_clear(ops)[k] == ops[ops.len()
                - from_last_clear(ops).len() + k],
        (forall|j: int| 0 <= j < ops.len() ==> !(#[trigger] ops[j] is Clear)) ==> from_last_clear(ops)
            == ops,
        (exists|j: int| 0 <= j < ops.len() && #[trigger] ops[j] is Clear) ==> from_last_clear(ops)[0] is Clear
            && forall|k: int| 0 < k < from_last_clear(ops).len() ==> !(#[trigger] from_last_clear(ops)[k] is Clear),
{
    lemma_last_clear_found(ops, ops.len() as int);
    match last_clear_in(ops, ops.len() as int) {
        Some(c) => {
            let kept = ops.skip(c);
            assert forall|k: int| 0 < k < kept.len() implies !(#[trigger] kept[k] is Clear) by {
                assert(kept[k] == ops[c + k]);
            }
        },
        None => {},
    }
}

/// A fresh machine starts at `0x200` with every register, the index, the stack
/// pointer and both timers at zero, no key down or buffered, a dark screen, nothing
/// queued, the font at `0x50` and every other byte of memory zero.
pub proof fn lemma_fresh_machine(start: u128)
    ensures
        ({
            let m = initial_machine(start);
            &&& machine_wf(m)
            &&& m.pc == 0x200 && m.i == 0 && m.sp == 0
            &&& m.delay_timer == 0 && m.sound_timer == 0
            &&& m.start_time_micros == start && m.latest_time_micros == start
            &&& m.key_buffer is None
            &&& m.draw_ops.len() == 0
            &&& forall|k: int| 0 <= k < 16 ==> #[trigger] m.reg[k] == 0 && !m.keys[k]
            &&& forall|k: int| 0 <= k < 2048 ==> !#[trigger] m.pixels[k]
            &&& forall|k: int| 0 <= k < 80 ==> #[trigger] m.memory[0x50 + k] == font_bytes()[k]
            &&& forall|k: int|
                0 <= k < 4096 && (k < 0x50 || k >= 0xA0) ==> #[trigger] m.memory[k] == 0
        }),
{
}

/// A key event on a key of the layout sets that keypad key's state and buffers it,
/// leaving the other keys alone; any other key changes nothing.
pub proof fn lemma_key_event(m: Machine, down: bool, keycode: i32)
    requires
        machine_wf(m),
    ensures
        keypad_value(keycode) is None ==> key_state_set(m, down, keycode) == m,
        keypad_value(keycode) matches Some(k) ==> {
            let m2 = key_state_set(m, down, keycode);
            &&& m2.keys[k as int] == down
            &&& m2.key_buffer == Some(k)
            &&& forall|j: int| 0 <= j < 16 && j != k ==> #[trigger] m2.keys[j] == m.keys[j]
            &&& m2 == (Machine { keys: m2.keys, key_buffer: m2.key_buffer, ..m })
        },
{
    crate::keypad::lemma_layout_is_one_to_one(keycode, keycode, 0);
}

} // verus!
