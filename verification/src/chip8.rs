//! The fetch-decode-execute core of the 8-bit machine.
//!
//! The machine owns 4096 bytes of memory, sixteen 8-bit general registers,
//! a 16-bit address register, two 8-bit timers, a 16-entry call stack and
//! the display surface. `step` executes exactly one instruction.
//!
//! Memory addressing policy: every address derived at run time (the program
//! counter and every address-register access) wraps modulo the 4096-byte
//! address space, so no memory access is ever out of bounds. Call-stack
//! overflow and underflow are out-of-spec program behaviour with no defined
//! recovery; this implementation fails the step with a distinct error kind
//! and leaves the machine unchanged.

use vstd::prelude::*;

use crate::display::{
    blank_screen, draw_collides, draw_result, Collision, Display, Sprite, PIXEL_COUNT,
};
use crate::keymap::{KeyMap, KeyMapView};

verus! {

/// Size of the machine's memory in bytes.
pub const MEMORY_SIZE: usize = 4096;

/// Depth of the call stack.
pub const STACK_DEPTH: usize = 16;

/// Load offset for ordinary programs.
pub const NORMAL_START_INDEX: usize = 512;

/// Load offset for programs written for the alternate legacy mode.
pub const ETI_660_START_INDEX: usize = 1536;

/// Length of the 60 Hz timer tick in microseconds.
pub const TICK_MICROS: u64 = 16667;

/// Number of preloaded font bytes: 16 hexadecimal digit sprites, 5 bytes
/// each.
pub const FONT_BYTES: usize = 80;

/// Why a step failed. A decode failure carries the two raw opcode bytes.
/// Stack overflow and underflow are the documented response to out-of-spec
/// call nesting, which the base machine leaves undefined.
#[derive(Clone, Copy, Debug, PartialEq, Eq, Structural)]
pub enum Error {
    UnrecognisedInstruction(u8, u8),
    StackOverflow,
    StackUnderflow,
}

/// The outcome of one step.
pub type Chip8Result = Result<(), Error>;

/// The machine state as the contracts see it.
#[verifier::ext_equal]
pub ghost struct MachineView {
    /// The 4096 memory bytes.
    pub ram: Seq<u8>,
    /// The 16 general registers; register 15 doubles as the flag register.
    pub regs: Seq<u8>,
    /// The 16-bit address register.
    pub i: int,
    /// The delay timer.
    pub dt: u8,
    /// The sound timer.
    pub st: u8,
    /// The program counter.
    pub pc: int,
    /// The stack pointer: index of the next free stack slot.
    pub sp: int,
    /// The 16 saved return addresses.
    pub stack: Seq<int>,
    /// The 64x32 pixel grid, row-major.
    pub screen: Seq<bool>,
}

/// Structural bounds of a machine state.
pub open spec fn wf_view(m: MachineView) -> bool {
    &&& m.ram.len() == MEMORY_SIZE
    &&& m.regs.len() == 16
    &&& m.stack.len() == STACK_DEPTH
    &&& 0 <= m.sp <= STACK_DEPTH
    &&& 0 <= m.pc < MEMORY_SIZE
    &&& 0 <= m.i < 65536
    &&& m.screen.len() == PIXEL_COUNT
    &&& forall|k: int| 0 <= k < STACK_DEPTH ==> 0 <= #[trigger] m.stack[k] < MEMORY_SIZE
}

/// The preloaded font: one 5-byte sprite for each hexadecimal digit.
pub open spec fn font_data() -> Seq<u8> {
    seq![
        0xF0u8, 0x90, 0x90, 0x90, 0xF0, // "0"
        0x20, 0x60, 0x20, 0x20, 0x70, // "1"
        0xF0, 0x10, 0xF0, 0x80, 0xF0, // "2"
        0xF0, 0x10, 0xF0, 0x10, 0xF0, // "3"
        0x90, 0x90, 0xF0, 0x10, 0x10, // "4"
        0xF0, 0x80, 0xF0, 0x10, 0xF0, // "5"
        0xF0, 0x80, 0xF0, 0x90, 0xF0, // "6"
        0xF0, 0x10, 0x20, 0x40, 0x40, // "7"
        0xF0, 0x90, 0xF0, 0x90, 0xF0, // "8"
        0xF0, 0x90, 0xF0, 0x10, 0xF0, // "9"
        0xF0, 0x90, 0xF0, 0x90, 0x90, // "A"
        0xE0, 0x90, 0xE0, 0x90, 0xE0, // "B"
        0xF0, 0x80, 0x80, 0x80, 0xF0, // "C"
        0xE9, 0x90, 0x90, 0x90, 0xE0, // "D"
        0xF0, 0x80, 0xF0, 0x80, 0xF9, // "E"
        0xF0, 0x80, 0xF0, 0x80, 0x80, // "F"
    ]
}

/// Memory at power-on: the font in the interpreter area, zero elsewhere.
pub open spec fn initial_ram() -> Seq<u8> {
    Seq::new(
        MEMORY_SIZE as nat,
        |a: int|
            if a < FONT_BYTES {
                font_data()[a]
            } else {
                0u8
            },
    )
}

/// The machine at power-on.
pub open spec fn initial_machine() -> MachineView {
    MachineView {
        ram: initial_ram(),
        regs: Seq::new(16, |x: int| 0u8),
        i: 0,
        dt: 0,
        st: 0,
        pc: 0,
        sp: 0,
        stack: Seq::new(STACK_DEPTH as nat, |k: int| 0int),
        screen: blank_screen(),
    }
}

/// The high nibble of a byte.
fn high(byte: u8) -> (r: u8)
    ensures
        r == high_nib(byte),
{
    byte / 16
}

/// The low nibble of a byte.
fn low(byte: u8) -> (r: u8)
    ensures
        r == low_nib(byte),
{
    byte % 16
}

/// 8-bit wraparound addition.
fn add_wrapping(a: u8, b: u8) -> (r: u8)
    ensures
        r == ((a + b) % 256) as u8,
{
    let s: u16 = a as u16 + b as u16;
    (s % 256) as u8
}

/// 8-bit wraparound subtraction.
fn sub_wrapping(a: u8, b: u8) -> (r: u8)
    ensures
        r == ((a + 256 - b) % 256) as u8,
{
    let d: u16 = a as u16 + 256 - b as u16;
    (d % 256) as u8
}

/// Relies on rand::random: one byte drawn from the thread-local random
/// generator. Nothing is promised of the value; callers state what holds
/// of every outcome.
#[verifier::external_body]
fn random_byte() -> u8 {
    rand::random::<u8>()
}

/// Relies on std::time::SystemTime::now, read once per step as the timer
/// clock sample; duration_since converts the reading to microseconds since
/// the Unix epoch. Nothing is promised of the value; callers state what
/// holds of every outcome.
#[verifier::external_body]
fn now_micros() -> u64 {
    match std::time::SystemTime::now().duration_since(std::time::UNIX_EPOCH) {
        Ok(elapsed) => elapsed.as_micros() as u64,
        Err(_) => 0,
    }
}

/// The high nibble of a byte.
pub open spec fn high_nib(b: u8) -> u8 {
    b / 16
}

/// The low nibble of a byte.
pub open spec fn low_nib(b: u8) -> u8 {
    b % 16
}

/// The 12-bit address field of the instruction word `hb lb`.
pub open spec fn addr_of(hb: u8, lb: u8) -> u16 {
    ((hb % 16) * 256 + lb as int) as u16
}

/// One decoded instruction. The operand nibbles `x` and `y` name general
/// registers; `kk` is the immediate byte, `nnn` the 12-bit address field,
/// `n` the low nibble.
pub enum Instr {
    /// `0nnn`: legacy system call, a silent no-op.
    Sys,
    /// `00E0`: clear the screen.
    Cls,
    /// `00EE`: return from a subroutine.
    Ret,
    /// `1nnn`: jump.
    Jp(u16),
    /// `2nnn`: call a subroutine.
    Call(u16),
    /// `3xkk`: skip next instruction if `Vx == kk`.
    SeImm(u8, u8),
    /// `4xkk`: skip next instruction if `Vx != kk`.
    SneImm(u8, u8),
    /// `5xyk`: skip next instruction if `Vx == Vy`.
    SeReg(u8, u8),
    /// `6xkk`: `Vx := kk`.
    LdImm(u8, u8),
    /// `7xkk`: `Vx := Vx + kk`, wrapping, no flag effect.
    AddImm(u8, u8),
    /// `8xy0`: `Vx := Vy`.
    LdReg(u8, u8),
    /// `8xy1`: `Vx := Vx | Vy`.
    OrReg(u8, u8),
    /// `8xy2`: `Vx := Vx & Vy`.
    AndReg(u8, u8),
    /// `8xy3`: `Vx := Vx ^ Vy`.
    XorReg(u8, u8),
    /// `8xy4`: `Vx := Vx + Vy`, flag register set to the carry.
    AddReg(u8, u8),
    /// `8xy5`: `Vx := Vx - Vy`, flag register set to the not-borrow.
    SubReg(u8, u8),
    /// `8xy6`: `Vx := Vx >> 1`, flag register set to the bit shifted out.
    ShrReg(u8),
    /// `8xy7`: `Vx := Vy - Vx`, flag register set to the not-borrow.
    SubnReg(u8, u8),
    /// `8xyE`: `Vx := Vx << 1`, flag register set to the bit shifted out.
    ShlReg(u8),
    /// `9xyk`: skip next instruction if `Vx != Vy`.
    SneReg(u8, u8),
    /// `Annn`: load the address register.
    LdI(u16),
    /// `Bnnn`: jump to `nnn + V0`.
    JpV0(u16),
    /// `Cxkk`: `Vx := random byte & kk`.
    Rnd(u8, u8),
    /// `Dxyn`: draw the `n`-byte sprite at the address register to
    /// `(Vx, Vy)`, flag register set to the collision.
    Drw(u8, u8, u8),
    /// `Ex9E`: skip next instruction if the key `Vx` is held.
    Skp(u8),
    /// `ExA1`: skip next instruction if the key `Vx` is not held.
    Sknp(u8),
    /// `Fx07`: `Vx := delay timer`.
    LdFromDt(u8),
    /// `Fx0A`: wait for a key press, then `Vx := key`.
    LdKey(u8),
    /// `Fx15`: `delay timer := Vx`.
    LdToDt(u8),
    /// `Fx18`: `sound timer := Vx`.
    LdToSt(u8),
    /// `Fx1E`: address register `+= Vx`, wrapping at 16 bits.
    AddI(u8),
    /// `Fx29`: address register := font sprite address of digit `Vx`.
    LdFont(u8),
    /// `Fx33`: store the decimal digits of `Vx` at the address register.
    StBcd(u8),
    /// `Fx55`: store registers `V0..=Vx` to memory.
    StRegs(u8),
    /// `Fx65`: load registers `V0..=Vx` from memory.
    LdRegs(u8),
}

/// Decode the instruction word `hb lb`, or nothing if no instruction
/// matches.
pub open spec fn decode(hb: u8, lb: u8) -> Option<Instr> {
    let x = low_nib(hb);
    let y = high_nib(lb);
    let n = low_nib(lb);
    let nnn = addr_of(hb, lb);
    if high_nib(hb) == 0x0 {
        if lb == 0xE0 {
            Some(Instr::Cls)
        } else if lb == 0xEE {
            Some(Instr::Ret)
        } else {
            Some(Instr::Sys)
        }
    } else if high_nib(hb) == 0x1 {
        Some(Instr::Jp(nnn))
    } else if high_nib(hb) == 0x2 {
        Some(Instr::Call(nnn))
    } else if high_nib(hb) == 0x3 {
        Some(Instr::SeImm(x, lb))
    } else if high_nib(hb) == 0x4 {
        Some(Instr::SneImm(x, lb))
    } else if high_nib(hb) == 0x5 {
        Some(Instr::SeReg(x, y))
    } else if high_nib(hb) == 0x6 {
        Some(Instr::LdImm(x, lb))
    } else if high_nib(hb) == 0x7 {
        Some(Instr::AddImm(x, lb))
    } else if high_nib(hb) == 0x8 {
        if n == 0x0 {
            Some(Instr::LdReg(x, y))
        } else if n == 0x1 {
            Some(Instr::OrReg(x, y))
        } else if n == 0x2 {
            Some(Instr::AndReg(x, y))
        } else if n == 0x3 {
            Some(Instr::XorReg(x, y))
        } else if n == 0x4 {
            Some(Instr::AddReg(x, y))
        } else if n == 0x5 {
            Some(Instr::SubReg(x, y))
        } else if n == 0x6 {
            Some(Instr::ShrReg(x))
        } else if n == 0x7 {
            Some(Instr::SubnReg(x, y))
        } else if n == 0xE {
            Some(Instr::ShlReg(x))
        } else {
            None
        }
    } else if high_nib(hb) == 0x9 {
        Some(Instr::SneReg(x, y))
    } else if high_nib(hb) == 0xA {
        Some(Instr::LdI(nnn))
    } else if high_nib(hb) == 0xB {
        Some(Instr::JpV0(nnn))
    } else if high_nib(hb) == 0xC {
        Some(Instr::Rnd(x, lb))
    } else if high_nib(hb) == 0xD {
        Some(Instr::Drw(x, y, n))
    } else if high_nib(hb) == 0xE {
        if lb == 0x9E {
            Some(Instr::Skp(x))
        } else if lb == 0xA1 {
            Some(Instr::Sknp(x))
        } else {
            None
        }
    } else {
        if lb == 0x07 {
            Some(Instr::LdFromDt(x))
        } else if lb == 0x0A {
            Some(Instr::LdKey(x))
        } else if lb == 0x15 {
            Some(Instr::LdToDt(x))
        } else if lb == 0x18 {
            Some(Instr::LdToSt(x))
        } else if lb == 0x1E {
            Some(Instr::AddI(x))
        } else if lb == 0x29 {
            Some(Instr::LdFont(x))
        } else if lb == 0x33 {
            Some(Instr::StBcd(x))
        } else if lb == 0x55 {
            Some(Instr::StRegs(x))
        } else if lb == 0x65 {
            Some(Instr::LdRegs(x))
        } else {
            None
        }
    }
}

/// The program counter advanced by `k` bytes, wrapping at the end of
/// memory.
pub open spec fn next_pc(pc: int, k: int) -> int {
    (pc + k) % (MEMORY_SIZE as int)
}

/// An address derived from the address register, wrapped into memory.
pub open spec fn wrap_addr(a: int) -> int {
    a % (MEMORY_SIZE as int)
}

/// A timer decremented by one tick: it saturates at zero.
pub open spec fn dec_timer(t: u8) -> u8 {
    if t > 0 {
        (t - 1) as u8
    } else {
        0
    }
}

/// The machine after the timer sampling at the head of a step: either no
/// 60 Hz boundary was crossed and nothing changes, or one was and both
/// timers lose one tick.
pub open spec fn tick_view(pre: MachineView, ticked: bool) -> MachineView {
    if ticked {
        MachineView { dt: dec_timer(pre.dt), st: dec_timer(pre.st), ..pre }
    } else {
        pre
    }
}

/// Whether a 60 Hz tick boundary has been crossed: a previous sample
/// exists and lies at least one tick in the past. The first sample never
/// ticks.
pub open spec fn spec_ticked(clock: Option<u64>, now: u64) -> bool {
    match clock {
        None => false,
        Some(last) => now >= last + TICK_MICROS,
    }
}

/// The clock state after a sample: the first sample establishes the
/// epoch; later samples move it forward only when a tick boundary was
/// crossed.
pub open spec fn spec_clock_next(clock: Option<u64>, now: u64) -> Option<u64> {
    match clock {
        None => Some(now),
        Some(last) => if now >= last + TICK_MICROS {
            Some(now)
        } else {
            Some(last)
        },
    }
}

/// Memory after storing registers `0..n` at addresses `i..i + n`, each
/// address wrapped into memory.
pub open spec fn store_block(ram: Seq<u8>, regs: Seq<u8>, i: int, n: int) -> Seq<u8>
    decreases n,
{
    if n <= 0 {
        ram
    } else {
        store_block(ram, regs, i, n - 1).update(wrap_addr(i + n - 1), regs[n - 1])
    }
}

/// Registers after loading `0..n` of them from addresses `i..i + n`, each
/// address wrapped into memory.
pub open spec fn load_block(regs: Seq<u8>, ram: Seq<u8>, i: int, n: int) -> Seq<u8>
    decreases n,
{
    if n <= 0 {
        regs
    } else {
        load_block(regs, ram, i, n - 1).update(n - 1, ram[wrap_addr(i + n - 1)])
    }
}

/// The sprite rows a draw instruction reads: `n` bytes starting at the
/// address register, each address wrapped into memory.
pub open spec fn sprite_rows(m: MachineView, n: u8) -> Seq<u8> {
    Seq::new(n as nat, |k: int| m.ram[wrap_addr(m.i + k)])
}

/// The effect of one decoded instruction: how `post` and the step's result
/// `r` relate to `pre`. Every relation pins `post` completely except for
/// the random byte of `Rnd`, of which only the masked store is promised.
pub open spec fn instr_rel(
    pre: MachineView,
    post: MachineView,
    keys: KeyMapView,
    r: Chip8Result,
    ins: Instr,
) -> bool {
    match ins {
        Instr::Sys => r is Ok && post == MachineView { pc: next_pc(pre.pc, 2), ..pre },
        Instr::Cls => r is Ok && post == MachineView {
            screen: blank_screen(),
            pc: next_pc(pre.pc, 2),
            ..pre
        },
        Instr::Ret => if pre.sp == 0 {
            r == Err::<(), Error>(Error::StackUnderflow) && post == pre
        } else {
            r is Ok && post == MachineView {
                sp: pre.sp - 1,
                pc: next_pc(pre.stack[pre.sp - 1], 2),
                ..pre
            }
        },
        Instr::Jp(nnn) => r is Ok && post == MachineView { pc: nnn as int, ..pre },
        Instr::Call(nnn) => if pre.sp == STACK_DEPTH {
            r == Err::<(), Error>(Error::StackOverflow) && post == pre
        } else {
            r is Ok && post == MachineView {
                stack: pre.stack.update(pre.sp, pre.pc),
                sp: pre.sp + 1,
                pc: nnn as int,
                ..pre
            }
        },
        Instr::SeImm(x, kk) => r is Ok && post == MachineView {
            pc: next_pc(
                pre.pc,
                if pre.regs[x as int] == kk {
                    4
                } else {
                    2
                },
            ),
            ..pre
        },
        Instr::SneImm(x, kk) => r is Ok && post == MachineView {
            pc: next_pc(
                pre.pc,
                if pre.regs[x as int] != kk {
                    4
                } else {
                    2
                },
            ),
            ..pre
        },
        Instr::SeReg(x, y) => r is Ok && post == MachineView {
            pc: next_pc(
                pre.pc,
                if pre.regs[x as int] == pre.regs[y as int] {
                    4
                } else {
                    2
                },
            ),
            ..pre
        },
        Instr::LdImm(x, kk) => r is Ok && post == MachineView {
            regs: pre.regs.update(x as int, kk),
            pc: next_pc(pre.pc, 2),
            ..pre
        },
        Instr::AddImm(x, kk) => r is Ok && post == MachineView {
            regs: pre.regs.update(x as int, ((pre.regs[x as int] + kk) % 256) as u8),
            pc: next_pc(pre.pc, 2),
            ..pre
        },
        Instr::LdReg(x, y) => r is Ok && post == MachineView {
            regs: pre.regs.update(x as int, pre.regs[y as int]),
            pc: next_pc(pre.pc, 2),
            ..pre
        },
        Instr::OrReg(x, y) => r is Ok && post == MachineView {
            regs: pre.regs.update(x as int, pre.regs[x as int] | pre.regs[y as int]),
            pc: next_pc(pre.pc, 2),
            ..pre
        },
        Instr::AndReg(x, y) => r is Ok && post == MachineView {
            regs: pre.regs.update(x as int, pre.regs[x as int] & pre.regs[y as int]),
            pc: next_pc(pre.pc, 2),
            ..pre
        },
        Instr::XorReg(x, y) => r is Ok && post == MachineView {
            regs: pre.regs.update(x as int, pre.regs[x as int] ^ pre.regs[y as int]),
            pc: next_pc(pre.pc, 2),
            ..pre
        },
        Instr::AddReg(x, y) => r is Ok && post == MachineView {
            regs: pre.regs.update(
                x as int,
                ((pre.regs[x as int] + pre.regs[y as int]) % 256) as u8,
            ).update(
                15,
                if pre.regs[x as int] + pre.regs[y as int] >= 256 {
                    1u8
                } else {
                    0u8
                },
            ),
            pc: next_pc(pre.pc, 2),
            ..pre
        },
        Instr::SubReg(x, y) => r is Ok && post == MachineView {
            regs: pre.regs.update(
                x as int,
                ((pre.regs[x as int] + 256 - pre.regs[y as int]) % 256) as u8,
            ).update(
                15,
                if pre.regs[x as int] > pre.regs[y as int] {
                    1u8
                } else {
                    0u8
                },
            ),
            pc: next_pc(pre.pc, 2),
            ..pre
        },
        Instr::ShrReg(x) => r is Ok && post == MachineView {
            regs: pre.regs.update(x as int, (pre.regs[x as int] / 2) as u8).update(
                15,
                (pre.regs[x as int] % 2) as u8,
            ),
            pc: next_pc(pre.pc, 2),
            ..pre
        },
        Instr::SubnReg(x, y) => r is Ok && post == MachineView {
            regs: pre.regs.update(
                x as int,
                ((pre.regs[y as int] + 256 - pre.regs[x as int]) % 256) as u8,
            ).update(
                15,
                if pre.regs[y as int] > pre.regs[x as int] {
                    1u8
                } else {
                    0u8
                },
            ),
            pc: next_pc(pre.pc, 2),
            ..pre
        },
        Instr::ShlReg(x) => r is Ok && post == MachineView {
            regs: pre.regs.update(x as int, ((pre.regs[x as int] * 2) % 256) as u8).update(
                15,
                (pre.regs[x as int] / 128) as u8,
            ),
            pc: next_pc(pre.pc, 2),
            ..pre
        },
        Instr::SneReg(x, y) => r is Ok && post == MachineView {
            pc: next_pc(
                pre.pc,
                if pre.regs[x as int] != pre.regs[y as int] {
                    4
                } else {
                    2
                },
            ),
            ..pre
        },
        Instr::LdI(nnn) => r is Ok && post == MachineView {
            i: nnn as int,
            pc: next_pc(pre.pc, 2),
            ..pre
        },
        Instr::JpV0(nnn) => r is Ok && post == MachineView {
            pc: wrap_addr(nnn + pre.regs[0]),
            ..pre
        },
        Instr::Rnd(x, kk) => r is Ok && exists|b: u8|
            post == MachineView {
                regs: pre.regs.update(x as int, b & kk),
                pc: next_pc(pre.pc, 2),
                ..pre
            },
        Instr::Drw(x, y, n) => {
            let sprite = sprite_rows(pre, n);
            let x0 = pre.regs[x as int] as int % 64;
            let y0 = pre.regs[y as int] as int % 32;
            r is Ok && post == MachineView {
                screen: draw_result(pre.screen, sprite, x0, y0),
                regs: pre.regs.update(
                    15,
                    if draw_collides(pre.screen, sprite, x0, y0) {
                        1u8
                    } else {
                        0u8
                    },
                ),
                pc: next_pc(pre.pc, 2),
                ..pre
            }
        },
        Instr::Skp(x) => r is Ok && post == MachineView {
            pc: next_pc(
                pre.pc,
                if keys.pressed(pre.regs[x as int]) {
                    4
                } else {
                    2
                },
            ),
            ..pre
        },
        Instr::Sknp(x) => r is Ok && post == MachineView {
            pc: next_pc(
                pre.pc,
                if !keys.pressed(pre.regs[x as int]) {
                    4
                } else {
                    2
                },
            ),
            ..pre
        },
        Instr::LdFromDt(x) => r is Ok && post == MachineView {
            regs: pre.regs.update(x as int, pre.dt),
            pc: next_pc(pre.pc, 2),
            ..pre
        },
        Instr::LdKey(x) => r is Ok && match keys.recent {
            Some(k) => post == MachineView {
                regs: pre.regs.update(x as int, k),
                pc: next_pc(pre.pc, 2),
                ..pre
            },
            None => post == pre,
        },
        Instr::LdToDt(x) => r is Ok && post == MachineView {
            dt: pre.regs[x as int],
            pc: next_pc(pre.pc, 2),
            ..pre
        },
        Instr::LdToSt(x) => r is Ok && post == MachineView {
            st: pre.regs[x as int],
            pc: next_pc(pre.pc, 2),
            ..pre
        },
        Instr::AddI(x) => r is Ok && post == MachineView {
            i: (pre.i + pre.regs[x as int]) % 65536,
            pc: next_pc(pre.pc, 2),
            ..pre
        },
        Instr::LdFont(x) => r is Ok && post == MachineView {
            i: if pre.regs[x as int] <= 0xF {
                pre.regs[x as int] * 5
            } else {
                pre.i
            },
            pc: next_pc(pre.pc, 2),
            ..pre
        },
        Instr::StBcd(x) => {
            let vx = pre.regs[x as int];
            r is Ok && post == MachineView {
                ram: pre.ram.update(wrap_addr(pre.i), (vx / 100) as u8).update(
                    wrap_addr(pre.i + 1),
                    ((vx / 10) % 10) as u8,
                ).update(wrap_addr(pre.i + 2), (vx % 10) as u8),
                pc: next_pc(pre.pc, 2),
                ..pre
            }
        },
        Instr::StRegs(x) => r is Ok && post == MachineView {
            ram: store_block(pre.ram, pre.regs, pre.i, x + 1),
            pc: next_pc(pre.pc, 2),
            ..pre
        },
        Instr::LdRegs(x) => r is Ok && post == MachineView {
            regs: load_block(pre.regs, pre.ram, pre.i, x + 1),
            pc: next_pc(pre.pc, 2),
            ..pre
        },
    }
}

/// How one step relates the machine after the timer sampling to the
/// machine it leaves behind: the instruction word at the program counter
/// either decodes and has its effect, or does not and the step fails with
/// the two raw bytes, leaving everything unchanged.
pub open spec fn step_rel(
    pre: MachineView,
    post: MachineView,
    keys: KeyMapView,
    r: Chip8Result,
) -> bool {
    let hb = pre.ram[pre.pc];
    let lb = pre.ram[next_pc(pre.pc, 1)];
    match decode(hb, lb) {
        Some(ins) => instr_rel(pre, post, keys, r, ins),
        None => r == Err::<(), Error>(Error::UnrecognisedInstruction(hb, lb)) && post == pre,
    }
}

/// Every register written by the load-immediate instruction reads back as
/// exactly the written byte: a step whose instruction word decodes to the
/// load of `kk` into `Vx` succeeds and leaves register `x` holding `kk`.
pub proof fn lemma_load_immediate_reads_back(
    pre: MachineView,
    post: MachineView,
    keys: KeyMapView,
    r: Chip8Result,
    x: u8,
    kk: u8,
)
    requires
        wf_view(pre),
        decode(pre.ram[pre.pc], pre.ram[next_pc(pre.pc, 1)]) == Some(Instr::LdImm(x, kk)),
        step_rel(pre, post, keys, r),
    ensures
        r is Ok,
        post.regs[x as int] == kk,
{
}

/// Add-with-carry: a step whose instruction word decodes to the add of
/// `Vy` into `Vx` succeeds; a register pair summing to at least 256
/// leaves the flag register at 1, a pair summing below 256 leaves it at
/// 0, and `Vx` holds the sum modulo 256. A destination of register 15
/// itself is excluded: there the flag overwrites the stored sum by
/// design.
pub proof fn lemma_add_with_carry(
    pre: MachineView,
    post: MachineView,
    keys: KeyMapView,
    r: Chip8Result,
    x: u8,
    y: u8,
)
    requires
        wf_view(pre),
        decode(pre.ram[pre.pc], pre.ram[next_pc(pre.pc, 1)]) == Some(Instr::AddReg(x, y)),
        x != 15,
        step_rel(pre, post, keys, r),
    ensures
        r is Ok,
        post.regs[15] == if pre.regs[x as int] + pre.regs[y as int] >= 256 {
            1u8
        } else {
            0u8
        },
        post.regs[x as int] == (pre.regs[x as int] + pre.regs[y as int]) % 256,
{
}

/// Subtract forward: a step whose instruction word decodes to the
/// subtraction of `Vy` from `Vx` succeeds; the flag register ends at 1
/// exactly when the minuend `Vx` strictly exceeded the subtrahend `Vy`
/// before the subtraction, and `Vx` holds the wraparound difference in
/// all cases. A destination of register 15 itself is excluded: there the
/// flag overwrites the stored difference by design.
pub proof fn lemma_subtract_forward(
    pre: MachineView,
    post: MachineView,
    keys: KeyMapView,
    r: Chip8Result,
    x: u8,
    y: u8,
)
    requires
        wf_view(pre),
        decode(pre.ram[pre.pc], pre.ram[next_pc(pre.pc, 1)]) == Some(Instr::SubReg(x, y)),
        x != 15,
        step_rel(pre, post, keys, r),
    ensures
        r is Ok,
        post.regs[15] == if pre.regs[x as int] > pre.regs[y as int] {
            1u8
        } else {
            0u8
        },
        post.regs[x as int] == (pre.regs[x as int] + 256 - pre.regs[y as int]) % 256,
{
}

/// Call/return round trip: a step whose instruction word decodes to a
/// call, followed immediately by a step whose instruction word decodes to
/// a return, leaves the program counter at the instruction following the
/// call and the stack depth unchanged from before the call.
pub proof fn lemma_call_ret_round_trip(
    s0: MachineView,
    s1: MachineView,
    s2: MachineView,
    k1: KeyMapView,
    k2: KeyMapView,
    nnn: u16,
)
    requires
        wf_view(s0),
        decode(s0.ram[s0.pc], s0.ram[next_pc(s0.pc, 1)]) == Some(Instr::Call(nnn)),
        step_rel(s0, s1, k1, Ok::<(), Error>(())),
        decode(s1.ram[s1.pc], s1.ram[next_pc(s1.pc, 1)]) == Some(Instr::Ret),
        step_rel(s1, s2, k2, Ok::<(), Error>(())),
    ensures
        s2.pc == next_pc(s0.pc, 2),
        s2.sp == s0.sp,
{
    assert(s0.sp < STACK_DEPTH);
    assert(s1.stack == s0.stack.update(s0.sp, s0.pc));
    assert(s1.stack[s0.sp as int] == s0.pc);
}

/// The 16 general registers, the address register and the two timers.
pub struct Registers {
    v: Vec<u8>,
    i: u16,
    dt: u8,
    st: u8,
}

impl View for Registers {
    type V = Seq<u8>;

    /// The 16 general registers.
    closed spec fn view(&self) -> Seq<u8> {
        self.v@
    }
}

impl Registers {
    /// The address register.
    pub closed spec fn spec_i(&self) -> u16 {
        self.i
    }

    /// The delay timer.
    pub closed spec fn spec_dt(&self) -> u8 {
        self.dt
    }

    /// The sound timer.
    pub closed spec fn spec_st(&self) -> u8 {
        self.st
    }

    /// There are exactly 16 general registers.
    pub open spec fn wf(&self) -> bool {
        self@.len() == 16
    }

    /// All registers and timers zero.
    pub fn new() -> (r: Registers)
        ensures
            r.wf(),
            r@ == Seq::new(16, |x: int| 0u8),
            r.spec_i() == 0,
            r.spec_dt() == 0,
            r.spec_st() == 0,
    {
        let mut v: Vec<u8> = Vec::new();
        let mut n: usize = 0;
        while n < 16
            invariant
                n <= 16,
                v@.len() == n,
                forall|k: int| 0 <= k < n ==> v@[k] == 0u8,
            decreases 16 - n,
        {
            v.push(0);
            n = n + 1;
        }
        proof {
            assert(v@ =~= Seq::new(16, |x: int| 0u8));
        }
        Registers { v, i: 0, dt: 0, st: 0 }
    }

    /// Write `value` into general register `register`.
    pub fn put(&mut self, register: u8, value: u8)
        requires
            old(self).wf(),
            register < 16,
        ensures
            final(self).wf(),
            final(self)@ == old(self)@.update(register as int, value),
            final(self).spec_i() == old(self).spec_i(),
            final(self).spec_dt() == old(self).spec_dt(),
            final(self).spec_st() == old(self).spec_st(),
    {
        self.v[register as usize] = value;
    }

    /// Read general register `register`.
    pub fn get(&self, register: u8) -> (value: u8)
        requires
            self.wf(),
            register < 16,
        ensures
            value == self@[register as int],
    {
        self.v[register as usize]
    }
}

/// The machine.
pub struct Chip8 {
    ram: Vec<u8>,
    registers: Registers,
    pc: usize,
    sp: usize,
    stack: Vec<usize>,
    pub display: Display,
    debug_output: bool,
    clock: Option<u64>,
}

impl View for Chip8 {
    type V = MachineView;

    closed spec fn view(&self) -> MachineView {
        MachineView {
            ram: self.ram@,
            regs: self.registers@,
            i: self.registers.spec_i() as int,
            dt: self.registers.spec_dt(),
            st: self.registers.spec_st(),
            pc: self.pc as int,
            sp: self.sp as int,
            stack: self.stack@.map_values(|a: usize| a as int),
            screen: self.display.memory@,
        }
    }
}

impl Chip8 {
    /// The timer clock sample from the previous step, if any.
    pub closed spec fn spec_clock(&self) -> Option<u64> {
        self.clock
    }

    /// Structural bounds of the machine state.
    pub open spec fn wf(&self) -> bool {
        wf_view(self@)
    }

    /// A machine at power-on: memory zeroed then font-loaded, registers and
    /// stack zero, display blank, timer epoch not yet established.
    pub fn new() -> (c: Chip8)
        ensures
            c.wf(),
            c@ == initial_machine(),
            c.spec_clock() is None,
    {
        let mut ram: Vec<u8> = Vec::new();
        let mut n: usize = 0;
        while n < MEMORY_SIZE
            invariant
                n <= MEMORY_SIZE,
                ram@.len() == n,
                forall|a: int| 0 <= a < n ==> ram@[a] == 0u8,
            decreases MEMORY_SIZE - n,
        {
            ram.push(0);
            n = n + 1;
        }

        let mut stack: Vec<usize> = Vec::new();
        let mut k: usize = 0;
        while k < STACK_DEPTH
            invariant
                k <= STACK_DEPTH,
                stack@.len() == k,
                forall|j: int| 0 <= j < k ==> stack@[j] == 0usize,
            decreases STACK_DEPTH - k,
        {
            stack.push(0);
            k = k + 1;
        }

        let mut c = Chip8 {
            ram,
            registers: Registers::new(),
            pc: 0,
            sp: 0,
            stack,
            display: Display::new(),
            debug_output: false,
            clock: None,
        };
        c.load_hexadecimal_display_bytes();
        proof {
            assert(c@.stack =~= Seq::new(STACK_DEPTH as nat, |j: int| 0int));
            assert(c@.ram =~= initial_ram());
            assert(c@ =~= initial_machine());
        }
        c
    }

    /// Copy a program image into memory at the load offset (`0x200`, or
    /// `0x600` in the alternate legacy mode) and point the program counter
    /// at it.
    pub fn load_rom(&mut self, rom: &[u8], eti_mode: bool)
        requires
            old(self).wf(),
            rom@.len() + if eti_mode {
                ETI_660_START_INDEX as int
            } else {
                NORMAL_START_INDEX as int
            } <= MEMORY_SIZE,
        ensures
            final(self).wf(),
            ({
                let start = if eti_mode {
                    ETI_660_START_INDEX as int
                } else {
                    NORMAL_START_INDEX as int
                };
                final(self)@ == MachineView {
                    ram: Seq::new(
                        MEMORY_SIZE as nat,
                        |a: int|
                            if start <= a < start + rom@.len() {
                                rom@[a - start]
                            } else {
                                old(self)@.ram[a]
                            },
                    ),
                    pc: start,
                    ..old(self)@
                }
            }),
            final(self).spec_clock() == old(self).spec_clock(),
    {
        let start_index = if eti_mode {
            ETI_660_START_INDEX
        } else {
            NORMAL_START_INDEX
        };

        let mut index: usize = 0;
        while index < rom.len()
            invariant
                index <= rom@.len(),
                start_index == if eti_mode {
                    ETI_660_START_INDEX as int
                } else {
                    NORMAL_START_INDEX as int
                },
                start_index + rom@.len() <= MEMORY_SIZE,
                self.ram@.len() == MEMORY_SIZE,
                forall|a: int|
                    0 <= a < MEMORY_SIZE ==> #[trigger] self.ram@[a] == (if start_index <= a
                        < start_index + index {
                        rom@[a - start_index]
                    } else {
                        old(self)@.ram[a]
                    }),
                self.registers == old(self).registers,
                self.pc == old(self).pc,
                self.sp == old(self).sp,
                self.stack == old(self).stack,
                self.display == old(self).display,
                self.clock == old(self).clock,
                old(self).wf(),
            decreases rom@.len() - index,
        {
            self.ram[start_index + index] = rom[index];
            index = index + 1;
        }
        self.pc = start_index;
        proof {
            let start = start_index as int;
            assert(self@.ram =~= Seq::new(
                MEMORY_SIZE as nat,
                |a: int|
                    if start <= a < start + rom@.len() {
                        rom@[a - start]
                    } else {
                        old(self)@.ram[a]
                    },
            ));
            assert(self@ =~= MachineView { ram: self@.ram, pc: start, ..old(self)@ });
        }
    }

    /// Whether the buzzer should sound: the sound timer is running.
    pub fn sound_on(&self) -> (on: bool)
        ensures
            on == (self@.st > 0),
    {
        self.registers.st > 0
    }

    /// Preload the font sprites into the interpreter area of memory.
    fn load_hexadecimal_display_bytes(&mut self)
        requires
            old(self).ram@.len() == MEMORY_SIZE,
        ensures
            final(self).ram@.len() == MEMORY_SIZE,
            forall|a: int|
                0 <= a < MEMORY_SIZE ==> #[trigger] final(self).ram@[a] == (if a < FONT_BYTES {
                    font_data()[a]
                } else {
                    old(self).ram@[a]
                }),
            final(self).registers == old(self).registers,
            final(self).pc == old(self).pc,
            final(self).sp == old(self).sp,
            final(self).stack == old(self).stack,
            final(self).display == old(self).display,
            final(self).clock == old(self).clock,
            final(self).debug_output == old(self).debug_output,
    {
        let bytes: Vec<u8> = vec![
            0xF0, 0x90, 0x90, 0x90, 0xF0, // "0"
            0x20, 0x60, 0x20, 0x20, 0x70, // "1"
            0xF0, 0x10, 0xF0, 0x80, 0xF0, // "2"
            0xF0, 0x10, 0xF0, 0x10, 0xF0, // "3"
            0x90, 0x90, 0xF0, 0x10, 0x10, // "4"
            0xF0, 0x80, 0xF0, 0x10, 0xF0, // "5"
            0xF0, 0x80, 0xF0, 0x90, 0xF0, // "6"
            0xF0, 0x10, 0x20, 0x40, 0x40, // "7"
            0xF0, 0x90, 0xF0, 0x90, 0xF0, // "8"
            0xF0, 0x90, 0xF0, 0x10, 0xF0, // "9"
            0xF0, 0x90, 0xF0, 0x90, 0x90, // "A"
            0xE0, 0x90, 0xE0, 0x90, 0xE0, // "B"
            0xF0, 0x80, 0x80, 0x80, 0xF0, // "C"
            0xE9, 0x90, 0x90, 0x90, 0xE0, // "D"
            0xF0, 0x80, 0xF0, 0x80, 0xF9, // "E"
            0xF0, 0x80, 0xF0, 0x80, 0x80, // "F"
        ];
        proof {
            assert(bytes@ =~= font_data());
        }

        let mut a: usize = 0;
        while a < FONT_BYTES
            invariant
                a <= FONT_BYTES,
                bytes@ == font_data(),
                bytes@.len() == FONT_BYTES,
                self.ram@.len() == MEMORY_SIZE,
                forall|j: int|
                    0 <= j < MEMORY_SIZE ==> #[trigger] self.ram@[j] == (if j < a {
                        font_data()[j]
                    } else {
                        old(self).ram@[j]
                    }),
                self.registers == old(self).registers,
                self.pc == old(self).pc,
                self.sp == old(self).sp,
                self.stack == old(self).stack,
                self.display == old(self).display,
                self.clock == old(self).clock,
                self.debug_output == old(self).debug_output,
            decreases FONT_BYTES - a,
        {
            self.ram[a] = bytes[a];
            a = a + 1;
        }
    }

    /// The first byte of the instruction word at the program counter.
    fn high_byte(&self) -> (b: u8)
        requires
            self.wf(),
        ensures
            b == self@.ram[self@.pc],
    {
        self.ram[self.pc]
    }

    /// The second byte of the instruction word at the program counter.
    fn low_byte(&self) -> (b: u8)
        requires
            self.wf(),
        ensures
            b == self@.ram[next_pc(self@.pc, 1)],
    {
        self.ram[(self.pc + 1) % MEMORY_SIZE]
    }

    /// The full 16-bit instruction word at the program counter.
    fn instruction(&self) -> (w: u16)
        requires
            self.wf(),
        ensures
            w == self@.ram[self@.pc] * 256 + self@.ram[next_pc(self@.pc, 1)],
    {
        (self.high_byte() as u16) * 256 + (self.low_byte() as u16)
    }

    /// The 12-bit address field of the instruction word.
    fn addr(&self) -> (a: u16)
        requires
            self.wf(),
        ensures
            a == addr_of(self@.ram[self@.pc], self@.ram[next_pc(self@.pc, 1)]),
            a < MEMORY_SIZE,
    {
        let w = self.instruction();
        proof {
            let hb = self@.ram[self@.pc] as int;
            let lb = self@.ram[next_pc(self@.pc, 1)] as int;
            assert((hb * 256 + lb) % 4096 == (hb % 16) * 256 + lb) by (nonlinear_arith)
                requires
                    0 <= hb < 256,
                    0 <= lb < 256,
            ;
        }
        w % 4096
    }

    /// `00E0`: blank the display.
    fn clear(&mut self) -> (pc2: usize)
        requires
            old(self).wf(),
        ensures
            final(self).wf(),
            final(self)@ == (MachineView { screen: blank_screen(), ..old(self)@ }),
            pc2 == next_pc(old(self)@.pc, 2),
            final(self).spec_clock() == old(self).spec_clock(),
    {
        self.display.clear();
        proof {
            assert(self@ =~= (MachineView { screen: blank_screen(), ..old(self)@ }));
        }
        (self.pc + 2) % MEMORY_SIZE
    }

    /// `00EE`: pop the stack and resume just past the saved call site.
    fn ret(&mut self) -> (pc2: usize)
        requires
            old(self).wf(),
            old(self)@.sp > 0,
        ensures
            final(self).wf(),
            final(self)@ == (MachineView { sp: old(self)@.sp - 1, ..old(self)@ }),
            pc2 == next_pc(old(self)@.stack[old(self)@.sp - 1], 2),
            final(self).spec_clock() == old(self).spec_clock(),
    {
        self.sp = self.sp - 1;
        proof {
            assert(self@ =~= (MachineView { sp: old(self)@.sp - 1, ..old(self)@ }));
            assert(self@.stack[self.sp as int] == self.stack@[self.sp as int] as int);
        }
        (self.stack[self.sp] + 2) % MEMORY_SIZE
    }

    /// `1nnn`: jump to the address field.
    fn jump(&self) -> (pc2: usize)
        requires
            self.wf(),
        ensures
            pc2 == addr_of(self@.ram[self@.pc], self@.ram[next_pc(self@.pc, 1)]),
            pc2 < MEMORY_SIZE,
    {
        self.addr() as usize
    }

    /// `2nnn`: push the current program counter and jump to the address
    /// field.
    fn call(&mut self) -> (pc2: usize)
        requires
            old(self).wf(),
            old(self)@.sp < STACK_DEPTH,
        ensures
            final(self).wf(),
            final(self)@ == (MachineView {
                stack: old(self)@.stack.update(old(self)@.sp, old(self)@.pc),
                sp: old(self)@.sp + 1,
                ..old(self)@
            }),
            pc2 == addr_of(old(self)@.ram[old(self)@.pc], old(self)@.ram[next_pc(old(self)@.pc, 1)]),
            pc2 < MEMORY_SIZE,
            final(self).spec_clock() == old(self).spec_clock(),
    {
        let a = self.addr();
        self.stack[self.sp] = self.pc;
        self.sp = self.sp + 1;
        proof {
            assert(self@.stack =~= old(self)@.stack.update(old(self)@.sp, old(self)@.pc));
            assert(self@ =~= (MachineView {
                stack: old(self)@.stack.update(old(self)@.sp, old(self)@.pc),
                sp: old(self)@.sp + 1,
                ..old(self)@
            }));
        }
        a as usize
    }

    /// `3xkk`: skip the next instruction if `Vx == kk`.
    fn skip_eq(&self) -> (pc2: usize)
        requires
            self.wf(),
        ensures
            ({
                let x = low_nib(self@.ram[self@.pc]);
                let kk = self@.ram[next_pc(self@.pc, 1)];
                pc2 == next_pc(
                    self@.pc,
                    if self@.regs[x as int] == kk {
                        4
                    } else {
                        2
                    },
                )
            }),
    {
        let x = low(self.high_byte());
        let contents = self.registers.get(x);
        if contents == self.low_byte() {
            (self.pc + 4) % MEMORY_SIZE
        } else {
            (self.pc + 2) % MEMORY_SIZE
        }
    }

    /// `4xkk`: skip the next instruction if `Vx != kk`.
    fn skip_neq(&self) -> (pc2: usize)
        requires
            self.wf(),
        ensures
            ({
                let x = low_nib(self@.ram[self@.pc]);
                let kk = self@.ram[next_pc(self@.pc, 1)];
                pc2 == next_pc(
                    self@.pc,
                    if self@.regs[x as int] != kk {
                        4
                    } else {
                        2
                    },
                )
            }),
    {
        let x = low(self.high_byte());
        let contents = self.registers.get(x);
        if contents != self.low_byte() {
            (self.pc + 4) % MEMORY_SIZE
        } else {
            (self.pc + 2) % MEMORY_SIZE
        }
    }

    /// `5xyk`: skip the next instruction if `Vx == Vy`.
    fn skip_eq_reg(&self) -> (pc2: usize)
        requires
            self.wf(),
        ensures
            ({
                let x = low_nib(self@.ram[self@.pc]);
                let y = high_nib(self@.ram[next_pc(self@.pc, 1)]);
                pc2 == next_pc(
                    self@.pc,
                    if self@.regs[x as int] == self@.regs[y as int] {
                        4
                    } else {
                        2
                    },
                )
            }),
    {
        let x = low(self.high_byte());
        let y = high(self.low_byte());
        if self.registers.get(x) == self.registers.get(y) {
            (self.pc + 4) % MEMORY_SIZE
        } else {
            (self.pc + 2) % MEMORY_SIZE
        }
    }

    /// `6xkk`: load the immediate byte into `Vx`.
    fn load_vx(&mut self) -> (pc2: usize)
        requires
            old(self).wf(),
        ensures
            final(self).wf(),
            ({
                let x = low_nib(old(self)@.ram[old(self)@.pc]);
                let kk = old(self)@.ram[next_pc(old(self)@.pc, 1)];
                final(self)@ == (MachineView {
                    regs: old(self)@.regs.update(x as int, kk),
                    ..old(self)@
                })
            }),
            pc2 == next_pc(old(self)@.pc, 2),
            final(self).spec_clock() == old(self).spec_clock(),
    {
        let x = low(self.high_byte());
        let kk = self.low_byte();
        self.registers.put(x, kk);
        proof {
            assert(self@ =~= (MachineView { regs: self@.regs, ..old(self)@ }));
        }
        (self.pc + 2) % MEMORY_SIZE
    }

    /// `7xkk`: add the immediate byte into `Vx`, wrapping, with no flag
    /// effect.
    fn add_vx(&mut self) -> (pc2: usize)
        requires
            old(self).wf(),
        ensures
            final(self).wf(),
            ({
                let x = low_nib(old(self)@.ram[old(self)@.pc]);
                let kk = old(self)@.ram[next_pc(old(self)@.pc, 1)];
                final(self)@ == (MachineView {
                    regs: old(self)@.regs.update(
                        x as int,
                        ((old(self)@.regs[x as int] + kk) % 256) as u8,
                    ),
                    ..old(self)@
                })
            }),
            pc2 == next_pc(old(self)@.pc, 2),
            final(self).spec_clock() == old(self).spec_clock(),
    {
        let x = low(self.high_byte());
        let kk = self.low_byte();
        let vx = self.registers.get(x);
        let result = add_wrapping(vx, kk);
        self.registers.put(x, result);
        proof {
            assert(self@ =~= (MachineView { regs: self@.regs, ..old(self)@ }));
        }
        (self.pc + 2) % MEMORY_SIZE
    }

    /// `8xy0`: copy `Vy` into `Vx`.
    fn set_vx_to_vy(&mut self) -> (pc2: usize)
        requires
            old(self).wf(),
        ensures
            final(self).wf(),
            ({
                let x = low_nib(old(self)@.ram[old(self)@.pc]);
                let y = high_nib(old(self)@.ram[next_pc(old(self)@.pc, 1)]);
                final(self)@ == (MachineView {
                    regs: old(self)@.regs.update(x as int, old(self)@.regs[y as int]),
                    ..old(self)@
                })
            }),
            pc2 == next_pc(old(self)@.pc, 2),
            final(self).spec_clock() == old(self).spec_clock(),
    {
        let x = low(self.high_byte());
        let y = high(self.low_byte());
        self.registers.put(x, self.registers.get(y));
        proof {
            assert(self@ =~= (MachineView { regs: self@.regs, ..old(self)@ }));
        }
        (self.pc + 2) % MEMORY_SIZE
    }

    /// `8xy1`: bitwise OR `Vy` into `Vx`.
    fn vx_or_vy(&mut self) -> (pc2: usize)
        requires
            old(self).wf(),
        ensures
            final(self).wf(),
            ({
                let x = low_nib(old(self)@.ram[old(self)@.pc]);
                let y = high_nib(old(self)@.ram[next_pc(old(self)@.pc, 1)]);
                final(self)@ == (MachineView {
                    regs: old(self)@.regs.update(
                        x as int,
                        old(self)@.regs[x as int] | old(self)@.regs[y as int],
                    ),
                    ..old(self)@
                })
            }),
            pc2 == next_pc(old(self)@.pc, 2),
            final(self).spec_clock() == old(self).spec_clock(),
    {
        let x = low(self.high_byte());
        let y = high(self.low_byte());
        self.registers.put(x, self.registers.get(x) | self.registers.get(y));
        proof {
            assert(self@ =~= (MachineView { regs: self@.regs, ..old(self)@ }));
        }
        (self.pc + 2) % MEMORY_SIZE
    }

    /// `8xy2`: bitwise AND `Vy` into `Vx`.
    fn vx_and_vy(&mut self) -> (pc2: usize)
        requires
            old(self).wf(),
        ensures
            final(self).wf(),
            ({
                let x = low_nib(old(self)@.ram[old(self)@.pc]);
                let y = high_nib(old(self)@.ram[next_pc(old(self)@.pc, 1)]);
                final(self)@ == (MachineView {
                    regs: old(self)@.regs.update(
                        x as int,
                        old(self)@.regs[x as int] & old(self)@.regs[y as int],
                    ),
                    ..old(self)@
                })
            }),
            pc2 == next_pc(old(self)@.pc, 2),
            final(self).spec_clock() == old(self).spec_clock(),
    {
        let x = low(self.high_byte());
        let y = high(self.low_byte());
        self.registers.put(x, self.registers.get(x) & self.registers.get(y));
        proof {
            assert(self@ =~= (MachineView { regs: self@.regs, ..old(self)@ }));
        }
        (self.pc + 2) % MEMORY_SIZE
    }

    /// `8xy3`: bitwise XOR `Vy` into `Vx`.
    fn vx_xor_vy(&mut self) -> (pc2: usize)
        requires
            old(self).wf(),
        ensures
            final(self).wf(),
            ({
                let x = low_nib(old(self)@.ram[old(self)@.pc]);
                let y = high_nib(old(self)@.ram[next_pc(old(self)@.pc, 1)]);
                final(self)@ == (MachineView {
                    regs: old(self)@.regs.update(
                        x as int,
                        old(self)@.regs[x as int] ^ old(self)@.regs[y as int],
                    ),
                    ..old(self)@
                })
            }),
            pc2 == next_pc(old(self)@.pc, 2),
            final(self).spec_clock() == old(self).spec_clock(),
    {
        let x = low(self.high_byte());
        let y = high(self.low_byte());
        self.registers.put(x, self.registers.get(x) ^ self.registers.get(y));
        proof {
            assert(self@ =~= (MachineView { regs: self@.regs, ..old(self)@ }));
        }
        (self.pc + 2) % MEMORY_SIZE
    }

    /// `8xy4`: add `Vy` into `Vx`, keeping the low 8 bits; the flag
    /// register is then overwritten with the carry, 1 if the true sum
    /// exceeded 8 bits and 0 otherwise.
    fn add_vx_and_vy(&mut self) -> (pc2: usize)
        requires
            old(self).wf(),
        ensures
            final(self).wf(),
            ({
                let x = low_nib(old(self)@.ram[old(self)@.pc]);
                let y = high_nib(old(self)@.ram[next_pc(old(self)@.pc, 1)]);
                final(self)@ == (MachineView {
                    regs: old(self)@.regs.update(
                        x as int,
                        ((old(self)@.regs[x as int] + old(self)@.regs[y as int]) % 256) as u8,
                    ).update(
                        15,
                        if old(self)@.regs[x as int] + old(self)@.regs[y as int] >= 256 {
                            1u8
                        } else {
                            0u8
                        },
                    ),
                    ..old(self)@
                })
            }),
            pc2 == next_pc(old(self)@.pc, 2),
            final(self).spec_clock() == old(self).spec_clock(),
    {
        let x = low(self.high_byte());
        let y = high(self.low_byte());
        let vx = self.registers.get(x);
        let vy = self.registers.get(y);
        let result = add_wrapping(vx, vy);
        self.registers.put(x, result);
        let flag: u8 = if (vx as u16) + (vy as u16) >= 256 {
            1
        } else {
            0
        };
        self.registers.put(15, flag);
        proof {
            assert(self@ =~= (MachineView { regs: self@.regs, ..old(self)@ }));
        }
        (self.pc + 2) % MEMORY_SIZE
    }

    /// `8xy5`: subtract `Vy` from `Vx`, wrapping; the flag register is
    /// then overwritten with 1 exactly when the minuend `Vx` strictly
    /// exceeded the subtrahend `Vy`, and 0 otherwise.
    fn sub_vx_and_vy(&mut self) -> (pc2: usize)
        requires
            old(self).wf(),
        ensures
            final(self).wf(),
            ({
                let x = low_nib(old(self)@.ram[old(self)@.pc]);
                let y = high_nib(old(self)@.ram[next_pc(old(self)@.pc, 1)]);
                final(self)@ == (MachineView {
                    regs: old(self)@.regs.update(
                        x as int,
                        ((old(self)@.regs[x as int] + 256 - old(self)@.regs[y as int]) % 256) as u8,
                    ).update(
                        15,
                        if old(self)@.regs[x as int] > old(self)@.regs[y as int] {
                            1u8
                        } else {
                            0u8
                        },
                    ),
                    ..old(self)@
                })
            }),
            pc2 == next_pc(old(self)@.pc, 2),
            final(self).spec_clock() == old(self).spec_clock(),
    {
        let x = low(self.high_byte());
        let y = high(self.low_byte());
        let vx = self.registers.get(x);
        let vy = self.registers.get(y);
        let result = sub_wrapping(vx, vy);
        self.registers.put(x, result);
        let flag: u8 = if vx > vy {
            1
        } else {
            0
        };
        self.registers.put(15, flag);
        proof {
            assert(self@ =~= (MachineView { regs: self@.regs, ..old(self)@ }));
        }
        (self.pc + 2) % MEMORY_SIZE
    }

    /// `8xy6`: halve `Vx`; the flag register is then overwritten with the
    /// low bit that was shifted out.
    fn vx_shr(&mut self) -> (pc2: usize)
        requires
            old(self).wf(),
        ensures
            final(self).wf(),
            ({
                let x = low_nib(old(self)@.ram[old(self)@.pc]);
                final(self)@ == (MachineView {
                    regs: old(self)@.regs.update(x as int, (old(self)@.regs[x as int] / 2) as u8)
                        .update(15, (old(self)@.regs[x as int] % 2) as u8),
                    ..old(self)@
                })
            }),
            pc2 == next_pc(old(self)@.pc, 2),
            final(self).spec_clock() == old(self).spec_clock(),
    {
        let x = low(self.high_byte());
        let vx = self.registers.get(x);
        self.registers.put(x, vx / 2);
        self.registers.put(15, vx % 2);
        proof {
            assert(self@ =~= (MachineView { regs: self@.regs, ..old(self)@ }));
        }
        (self.pc + 2) % MEMORY_SIZE
    }

    /// `8xy7`: store `Vy - Vx` into `Vx`, wrapping; the flag register is
    /// then overwritten with 1 exactly when `Vy` strictly exceeded `Vx`,
    /// and 0 otherwise.
    fn vx_subn_vy(&mut self) -> (pc2: usize)
        requires
            old(self).wf(),
        ensures
            final(self).wf(),
            ({
                let x = low_nib(old(self)@.ram[old(self)@.pc]);
                let y = high_nib(old(self)@.ram[next_pc(old(self)@.pc, 1)]);
                final(self)@ == (MachineView {
                    regs: old(self)@.regs.update(
                        x as int,
                        ((old(self)@.regs[y as int] + 256 - old(self)@.regs[x as int]) % 256) as u8,
                    ).update(
                        15,
                        if old(self)@.regs[y as int] > old(self)@.regs[x as int] {
                            1u8
                        } else {
                            0u8
                        },
                    ),
                    ..old(self)@
                })
            }),
            pc2 == next_pc(old(self)@.pc, 2),
            final(self).spec_clock() == old(self).spec_clock(),
    {
        let x = low(self.high_byte());
        let y = high(self.low_byte());
        let vx = self.registers.get(x);
        let vy = self.registers.get(y);
        let result = sub_wrapping(vy, vx);
        self.registers.put(x, result);
        let flag: u8 = if vy > vx {
            1
        } else {
            0
        };
        self.registers.put(15, flag);
        proof {
            assert(self@ =~= (MachineView { regs: self@.regs, ..old(self)@ }));
        }
        (self.pc + 2) % MEMORY_SIZE
    }

    /// `8xyE`: double `Vx`, keeping the low 8 bits; the flag register is
    /// then overwritten with the high bit that was shifted out.
    fn vx_shl(&mut self) -> (pc2: usize)
        requires
            old(self).wf(),
        ensures
            final(self).wf(),
            ({
                let x = low_nib(old(self)@.ram[old(self)@.pc]);
                final(self)@ == (MachineView {
                    regs: old(self)@.regs.update(
                        x as int,
                        ((old(self)@.regs[x as int] * 2) % 256) as u8,
                    ).update(15, (old(self)@.regs[x as int] / 128) as u8),
                    ..old(self)@
                })
            }),
            pc2 == next_pc(old(self)@.pc, 2),
            final(self).spec_clock() == old(self).spec_clock(),
    {
        let x = low(self.high_byte());
        let vx = self.registers.get(x);
        let result = add_wrapping(vx, vx);
        self.registers.put(x, result);
        self.registers.put(15, vx / 128);
        proof {
            assert(self@ =~= (MachineView { regs: self@.regs, ..old(self)@ }));
        }
        (self.pc + 2) % MEMORY_SIZE
    }

    /// `9xyk`: skip the next instruction if `Vx != Vy`.
    fn skip_vx_neq_vy(&self) -> (pc2: usize)
        requires
            self.wf(),
        ensures
            ({
                let x = low_nib(self@.ram[self@.pc]);
                let y = high_nib(self@.ram[next_pc(self@.pc, 1)]);
                pc2 == next_pc(
                    self@.pc,
                    if self@.regs[x as int] != self@.regs[y as int] {
                        4
                    } else {
                        2
                    },
                )
            }),
    {
        let x = low(self.high_byte());
        let y = high(self.low_byte());
        if self.registers.get(x) != self.registers.get(y) {
            (self.pc + 4) % MEMORY_SIZE
        } else {
            (self.pc + 2) % MEMORY_SIZE
        }
    }

    /// `Annn`: load the address field into the address register.
    fn load_i(&mut self) -> (pc2: usize)
        requires
            old(self).wf(),
        ensures
            final(self).wf(),
            final(self)@ == (MachineView {
                i: addr_of(
                    old(self)@.ram[old(self)@.pc],
                    old(self)@.ram[next_pc(old(self)@.pc, 1)],
                ) as int,
                ..old(self)@
            }),
            pc2 == next_pc(old(self)@.pc, 2),
            final(self).spec_clock() == old(self).spec_clock(),
    {
        let a = self.addr();
        self.registers.i = a;
        proof {
            assert(self@ =~= (MachineView { i: a as int, ..old(self)@ }));
        }
        (self.pc + 2) % MEMORY_SIZE
    }

    /// `Bnnn`: jump to the address field plus `V0`.
    fn jump_plus_v0(&self) -> (pc2: usize)
        requires
            self.wf(),
        ensures
            pc2 == wrap_addr(
                addr_of(self@.ram[self@.pc], self@.ram[next_pc(self@.pc, 1)]) + self@.regs[0],
            ),
            pc2 < MEMORY_SIZE,
    {
        let a = self.addr();
        (a as usize + self.registers.get(0) as usize) % MEMORY_SIZE
    }

    /// `Cxkk`: store a random byte masked by the immediate byte into `Vx`.
    fn rand(&mut self) -> (pc2: usize)
        requires
            old(self).wf(),
        ensures
            final(self).wf(),
            ({
                let x = low_nib(old(self)@.ram[old(self)@.pc]);
                let kk = old(self)@.ram[next_pc(old(self)@.pc, 1)];
                exists|b: u8|
                    final(self)@.regs == #[trigger] old(self)@.regs.update(x as int, b & kk)
            }),
            final(self)@ == (MachineView { regs: final(self)@.regs, ..old(self)@ }),
            pc2 == next_pc(old(self)@.pc, 2),
            final(self).spec_clock() == old(self).spec_clock(),
    {
        let x = low(self.high_byte());
        let kk = self.low_byte();
        let b = random_byte();
        self.registers.put(x, b & kk);
        proof {
            assert(self@ =~= (MachineView {
                regs: old(self)@.regs.update(low_nib(old(self)@.ram[old(self)@.pc]) as int, b & kk),
                ..old(self)@
            }));
        }
        (self.pc + 2) % MEMORY_SIZE
    }

    /// `Dxyn`: read the `n`-byte sprite at the address register and
    /// composite it at `(Vx, Vy)`; the flag register is then overwritten
    /// with 1 if any pixel was erased and 0 otherwise.
    fn draw(&mut self) -> (pc2: usize)
        requires
            old(self).wf(),
        ensures
            final(self).wf(),
            ({
                let x = low_nib(old(self)@.ram[old(self)@.pc]);
                let y = high_nib(old(self)@.ram[next_pc(old(self)@.pc, 1)]);
                let n = low_nib(old(self)@.ram[next_pc(old(self)@.pc, 1)]);
                let sprite = sprite_rows(old(self)@, n);
                let x0 = old(self)@.regs[x as int] as int % 64;
                let y0 = old(self)@.regs[y as int] as int % 32;
                final(self)@ == (MachineView {
                    screen: draw_result(old(self)@.screen, sprite, x0, y0),
                    regs: old(self)@.regs.update(
                        15,
                        if draw_collides(old(self)@.screen, sprite, x0, y0) {
                            1u8
                        } else {
                            0u8
                        },
                    ),
                    ..old(self)@
                })
            }),
            pc2 == next_pc(old(self)@.pc, 2),
            final(self).spec_clock() == old(self).spec_clock(),
    {
        let x = low(self.high_byte());
        let y = high(self.low_byte());
        let n = low(self.low_byte());

        let i_base = self.registers.i as usize;
        let mut bytes: Vec<u8> = Vec::new();
        let mut k: usize = 0;
        while k < n as usize
            invariant
                *self == *old(self),
                old(self).wf(),
                k <= n as usize,
                n <= 15,
                i_base == old(self)@.i,
                bytes@.len() == k,
                forall|j: int|
                    0 <= j < k ==> #[trigger] bytes@[j] == old(self)@.ram[wrap_addr(
                        old(self)@.i + j,
                    )],
            decreases n as usize - k,
        {
            bytes.push(self.ram[(i_base + k) % MEMORY_SIZE]);
            k = k + 1;
        }
        proof {
            assert(bytes@ =~= sprite_rows(old(self)@, low_nib(
                old(self)@.ram[next_pc(old(self)@.pc, 1)],
            )));
        }

        let vx = self.registers.get(x);
        let vy = self.registers.get(y);
        let sprite = Sprite::new(bytes.as_slice());
        let collision = sprite.draw(vx as usize, vy as usize, &mut self.display);

        let flag: u8 = if collision == Collision::True {
            1
        } else {
            0
        };
        self.registers.put(15, flag);
        proof {
            assert(self@ =~= (MachineView {
                screen: self@.screen,
                regs: self@.regs,
                ..old(self)@
            }));
        }
        (self.pc + 2) % MEMORY_SIZE
    }

    /// `Ex9E`: skip the next instruction if the key named by `Vx` is held.
    fn skip_pressed(&self, keymap: &KeyMap) -> (pc2: usize)
        requires
            self.wf(),
            keymap.wf(),
        ensures
            ({
                let x = low_nib(self@.ram[self@.pc]);
                pc2 == next_pc(
                    self@.pc,
                    if keymap@.pressed(self@.regs[x as int]) {
                        4
                    } else {
                        2
                    },
                )
            }),
    {
        let x = low(self.high_byte());
        let vx = self.registers.get(x);
        if keymap.is_key_pressed(vx) {
            (self.pc + 4) % MEMORY_SIZE
        } else {
            (self.pc + 2) % MEMORY_SIZE
        }
    }

    /// `ExA1`: skip the next instruction if the key named by `Vx` is not
    /// held.
    fn skip_not_pressed(&self, keymap: &KeyMap) -> (pc2: usize)
        requires
            self.wf(),
            keymap.wf(),
        ensures
            ({
                let x = low_nib(self@.ram[self@.pc]);
                pc2 == next_pc(
                    self@.pc,
                    if !keymap@.pressed(self@.regs[x as int]) {
                        4
                    } else {
                        2
                    },
                )
            }),
    {
        let x = low(self.high_byte());
        let vx = self.registers.get(x);
        if !keymap.is_key_pressed(vx) {
            (self.pc + 4) % MEMORY_SIZE
        } else {
            (self.pc + 2) % MEMORY_SIZE
        }
    }

    /// `Fx07`: copy the delay timer into `Vx`.
    fn set_vx_delay_timer(&mut self) -> (pc2: usize)
        requires
            old(self).wf(),
        ensures
            final(self).wf(),
            ({
                let x = low_nib(old(self)@.ram[old(self)@.pc]);
                final(self)@ == (MachineView {
                    regs: old(self)@.regs.update(x as int, old(self)@.dt),
                    ..old(self)@
                })
            }),
            pc2 == next_pc(old(self)@.pc, 2),
            final(self).spec_clock() == old(self).spec_clock(),
    {
        let x = low(self.high_byte());
        let dt = self.registers.dt;
        self.registers.put(x, dt);
        proof {
            assert(self@ =~= (MachineView { regs: self@.regs, ..old(self)@ }));
        }
        (self.pc + 2) % MEMORY_SIZE
    }

    /// `Fx0A`: if a key press has been latched, store it in `Vx` and move
    /// on; otherwise hold the program counter in place so the instruction
    /// runs again on the next step.
    fn wait_and_load_key_press(&mut self, keymap: &KeyMap) -> (pc2: usize)
        requires
            old(self).wf(),
            keymap.wf(),
        ensures
            final(self).wf(),
            ({
                let x = low_nib(old(self)@.ram[old(self)@.pc]);
                match keymap@.recent {
                    Some(k) => final(self)@ == (MachineView {
                        regs: old(self)@.regs.update(x as int, k),
                        ..old(self)@
                    }) && pc2 == next_pc(old(self)@.pc, 2),
                    None => final(self)@ == old(self)@ && pc2 == old(self)@.pc,
                }
            }),
            final(self).spec_clock() == old(self).spec_clock(),
    {
        let x = low(self.high_byte());
        match keymap.most_recent_key() {
            Some(key) => {
                self.registers.put(x, key);
                proof {
                    assert(self@ =~= (MachineView { regs: self@.regs, ..old(self)@ }));
                }
                (self.pc + 2) % MEMORY_SIZE
            },
            None => self.pc,
        }
    }

    /// `Fx15`: copy `Vx` into the delay timer.
    fn set_delay_timer(&mut self) -> (pc2: usize)
        requires
            old(self).wf(),
        ensures
            final(self).wf(),
            ({
                let x = low_nib(old(self)@.ram[old(self)@.pc]);
                final(self)@ == (MachineView { dt: old(self)@.regs[x as int], ..old(self)@ })
            }),
            pc2 == next_pc(old(self)@.pc, 2),
            final(self).spec_clock() == old(self).spec_clock(),
    {
        let x = low(self.high_byte());
        self.registers.dt = self.registers.get(x);
        proof {
            assert(self@ =~= (MachineView { dt: self@.dt, ..old(self)@ }));
        }
        (self.pc + 2) % MEMORY_SIZE
    }

    /// `Fx18`: copy `Vx` into the sound timer.
    fn set_sound_timer(&mut self) -> (pc2: usize)
        requires
            old(self).wf(),
        ensures
            final(self).wf(),
            ({
                let x = low_nib(old(self)@.ram[old(self)@.pc]);
                final(self)@ == (MachineView { st: old(self)@.regs[x as int], ..old(self)@ })
            }),
            pc2 == next_pc(old(self)@.pc, 2),
            final(self).spec_clock() == old(self).spec_clock(),
    {
        let x = low(self.high_byte());
        self.registers.st = self.registers.get(x);
        proof {
            assert(self@ =~= (MachineView { st: self@.st, ..old(self)@ }));
        }
        (self.pc + 2) % MEMORY_SIZE
    }

    /// `Fx1E`: add `Vx` into the address register, wrapping at 16 bits.
    fn add(&mut self) -> (pc2: usize)
        requires
            old(self).wf(),
        ensures
            final(self).wf(),
            ({
                let x = low_nib(old(self)@.ram[old(self)@.pc]);
                final(self)@ == (MachineView {
                    i: (old(self)@.i + old(self)@.regs[x as int]) % 65536,
                    ..old(self)@
                })
            }),
            pc2 == next_pc(old(self)@.pc, 2),
            final(self).spec_clock() == old(self).spec_clock(),
    {
        let x = low(self.high_byte());
        let vx = self.registers.get(x);
        let sum: u32 = self.registers.i as u32 + vx as u32;
        self.registers.i = (sum % 65536) as u16;
        proof {
            assert(self@ =~= (MachineView { i: self@.i, ..old(self)@ }));
        }
        (self.pc + 2) % MEMORY_SIZE
    }

    /// `Fx29`: point the address register at the 5-byte font sprite for
    /// the hexadecimal digit in `Vx`. A value beyond `0xF` leaves the
    /// address register untouched.
    fn set_i_to_sprite_vx(&mut self) -> (pc2: usize)
        requires
            old(self).wf(),
        ensures
            final(self).wf(),
            ({
                let x = low_nib(old(self)@.ram[old(self)@.pc]);
                final(self)@ == (MachineView {
                    i: if old(self)@.regs[x as int] <= 0xF {
                        old(self)@.regs[x as int] * 5
                    } else {
                        old(self)@.i
                    },
                    ..old(self)@
                })
            }),
            pc2 == next_pc(old(self)@.pc, 2),
            final(self).spec_clock() == old(self).spec_clock(),
    {
        let x = low(self.high_byte());
        let vx = self.registers.get(x);
        if vx <= 0xF {
            self.registers.i = vx as u16 * 5;
        }
        proof {
            assert(self@ =~= (MachineView { i: self@.i, ..old(self)@ }));
        }
        (self.pc + 2) % MEMORY_SIZE
    }

    /// `Fx33`: write the hundreds, tens and ones decimal digits of `Vx` to
    /// the address register's location and the two following it.
    fn store_bcd(&mut self) -> (pc2: usize)
        requires
            old(self).wf(),
        ensures
            final(self).wf(),
            ({
                let x = low_nib(old(self)@.ram[old(self)@.pc]);
                let vx = old(self)@.regs[x as int];
                final(self)@ == (MachineView {
                    ram: old(self)@.ram.update(wrap_addr(old(self)@.i), (vx / 100) as u8).update(
                        wrap_addr(old(self)@.i + 1),
                        ((vx / 10) % 10) as u8,
                    ).update(wrap_addr(old(self)@.i + 2), (vx % 10) as u8),
                    ..old(self)@
                })
            }),
            pc2 == next_pc(old(self)@.pc, 2),
            final(self).spec_clock() == old(self).spec_clock(),
    {
        let x = low(self.high_byte());
        let vx = self.registers.get(x);
        let i0 = self.registers.i as usize;

        self.ram[i0 % MEMORY_SIZE] = vx / 100;
        self.ram[(i0 + 1) % MEMORY_SIZE] = vx / 10 % 10;
        self.ram[(i0 + 2) % MEMORY_SIZE] = vx % 10;
        proof {
            assert(self@ =~= (MachineView { ram: self@.ram, ..old(self)@ }));
        }
        (self.pc + 2) % MEMORY_SIZE
    }

    /// `Fx55`: copy registers `V0..=Vx` into memory starting at the
    /// address register.
    fn store_array(&mut self) -> (pc2: usize)
        requires
            old(self).wf(),
        ensures
            final(self).wf(),
            ({
                let x = low_nib(old(self)@.ram[old(self)@.pc]);
                final(self)@ == (MachineView {
                    ram: store_block(old(self)@.ram, old(self)@.regs, old(self)@.i, x + 1),
                    ..old(self)@
                })
            }),
            pc2 == next_pc(old(self)@.pc, 2),
            final(self).spec_clock() == old(self).spec_clock(),
    {
        let x = low(self.high_byte());
        let i0 = self.registers.i as usize;

        let mut n: usize = 0;
        while n < x as usize + 1
            invariant
                old(self).wf(),
                n <= x as usize + 1,
                x < 16,
                i0 == old(self)@.i,
                self.ram@.len() == MEMORY_SIZE,
                self.ram@ == store_block(old(self)@.ram, old(self)@.regs, old(self)@.i, n as int),
                self.registers == old(self).registers,
                self.pc == old(self).pc,
                self.sp == old(self).sp,
                self.stack == old(self).stack,
                self.display == old(self).display,
                self.clock == old(self).clock,
                self.debug_output == old(self).debug_output,
            decreases x as usize + 1 - n,
        {
            let value = self.registers.get(n as u8);
            self.ram[(i0 + n) % MEMORY_SIZE] = value;
            n = n + 1;
        }
        proof {
            assert(self@ =~= (MachineView { ram: self@.ram, ..old(self)@ }));
        }
        (self.pc + 2) % MEMORY_SIZE
    }

    /// `Fx65`: load registers `V0..=Vx` from memory starting at the
    /// address register.
    fn load_array(&mut self) -> (pc2: usize)
        requires
            old(self).wf(),
        ensures
            final(self).wf(),
            ({
                let x = low_nib(old(self)@.ram[old(self)@.pc]);
                final(self)@ == (MachineView {
                    regs: load_block(old(self)@.regs, old(self)@.ram, old(self)@.i, x + 1),
                    ..old(self)@
                })
            }),
            pc2 == next_pc(old(self)@.pc, 2),
            final(self).spec_clock() == old(self).spec_clock(),
    {
        let x = low(self.high_byte());
        let i0 = self.registers.i as usize;

        let mut n: usize = 0;
        while n < x as usize + 1
            invariant
                old(self).wf(),
                n <= x as usize + 1,
                x < 16,
                i0 == old(self)@.i,
                self.ram@ == old(self)@.ram,
                self.registers.wf(),
                self.registers@ == load_block(
                    old(self)@.regs,
                    old(self)@.ram,
                    old(self)@.i,
                    n as int,
                ),
                self.registers.spec_i() == old(self).registers.spec_i(),
                self.registers.spec_dt() == old(self).registers.spec_dt(),
                self.registers.spec_st() == old(self).registers.spec_st(),
                self.pc == old(self).pc,
                self.sp == old(self).sp,
                self.stack == old(self).stack,
                self.display == old(self).display,
                self.clock == old(self).clock,
                self.debug_output == old(self).debug_output,
            decreases x as usize + 1 - n,
        {
            let value = self.ram[(i0 + n) % MEMORY_SIZE];
            self.registers.put(n as u8, value);
            n = n + 1;
        }
        proof {
            assert(self@ =~= (MachineView { regs: self@.regs, ..old(self)@ }));
        }
        (self.pc + 2) % MEMORY_SIZE
    }

    /// Sample the wall clock and run the two timers: when a 60 Hz tick
    /// boundary has been crossed since the previous sample, each timer
    /// loses one tick, saturating at zero. The first sample only
    /// establishes the epoch and decrements nothing.
    fn run_timers(&mut self, now: u64)
        requires
            old(self).wf(),
        ensures
            final(self).wf(),
            final(self)@ == tick_view(old(self)@, spec_ticked(old(self).spec_clock(), now)),
            final(self).spec_clock() == spec_clock_next(old(self).spec_clock(), now),
    {
        match self.clock {
            None => {
                self.clock = Some(now);
                proof {
                    assert(self@ =~= old(self)@);
                }
            },
            Some(last) => {
                if now >= last && now - last >= TICK_MICROS {
                    if self.registers.dt > 0 {
                        self.registers.dt = self.registers.dt - 1;
                    }
                    if self.registers.st > 0 {
                        self.registers.st = self.registers.st - 1;
                    }
                    self.clock = Some(now);
                    proof {
                        assert(self@ =~= tick_view(old(self)@, true));
                    }
                } else {
                    proof {
                        assert(self@ =~= old(self)@);
                    }
                }
            },
        }
    }

    /// Execute exactly one instruction: sample the timer clock, fetch the
    /// two-byte word at the program counter, decode it, apply its effect
    /// and leave the program counter at the instruction's own successor.
    /// A word that matches no instruction fails with its two raw bytes and
    /// leaves the machine unchanged, as does an out-of-spec use of the
    /// call stack.
    pub fn step(&mut self, keymap: &KeyMap) -> (r: Chip8Result)
        requires
            old(self).wf(),
            keymap.wf(),
        ensures
            final(self).wf(),
            exists|ticked: bool|
                #[trigger] step_rel(tick_view(old(self)@, ticked), final(self)@, keymap@, r),
    {
        let now = now_micros();
        self.run_timers(now);
        let ghost ticked = spec_ticked(old(self).spec_clock(), now);
        let ghost mid = self@;
        proof {
            assert(mid == tick_view(old(self)@, ticked));
        }

        let high_byte = self.high_byte();
        let low_byte = self.low_byte();

        match high(high_byte) {
            0x0 => {
                if low_byte == 0xE0 {
                    let pc2 = self.clear();
                    self.pc = pc2;
                    proof {
                        assert(self@ =~= (MachineView {
                            screen: blank_screen(),
                            pc: next_pc(mid.pc, 2),
                            ..mid
                        }));
                    }
                } else if low_byte == 0xEE {
                    if self.sp == 0 {
                        proof {
                            assert(step_rel(
                                mid,
                                self@,
                                keymap@,
                                Err::<(), Error>(Error::StackUnderflow),
                            ));
                        }
                        return Err(Error::StackUnderflow);
                    }
                    let pc2 = self.ret();
                    self.pc = pc2;
                    proof {
                        assert(self@ =~= (MachineView {
                            sp: mid.sp - 1,
                            pc: next_pc(mid.stack[mid.sp - 1], 2),
                            ..mid
                        }));
                    }
                } else {
                    self.pc = (self.pc + 2) % MEMORY_SIZE;
                    proof {
                        assert(self@ =~= (MachineView { pc: next_pc(mid.pc, 2), ..mid }));
                    }
                }
            },
            0x1 => {
                let pc2 = self.jump();
                self.pc = pc2;
                proof {
                    assert(self@ =~= (MachineView { pc: self@.pc, ..mid }));
                }
            },
            0x2 => {
                if self.sp == STACK_DEPTH {
                    proof {
                        assert(step_rel(mid, self@, keymap@, Err::<(), Error>(Error::StackOverflow)));
                    }
                    return Err(Error::StackOverflow);
                }
                let pc2 = self.call();
                self.pc = pc2;
                proof {
                    assert(self@ =~= (MachineView {
                        stack: mid.stack.update(mid.sp, mid.pc),
                        sp: mid.sp + 1,
                        pc: self@.pc,
                        ..mid
                    }));
                }
            },
            0x3 => {
                let pc2 = self.skip_eq();
                self.pc = pc2;
                proof {
                    assert(self@ =~= (MachineView { pc: self@.pc, ..mid }));
                }
            },
            0x4 => {
                let pc2 = self.skip_neq();
                self.pc = pc2;
                proof {
                    assert(self@ =~= (MachineView { pc: self@.pc, ..mid }));
                }
            },
            0x5 => {
                let pc2 = self.skip_eq_reg();
                self.pc = pc2;
                proof {
                    assert(self@ =~= (MachineView { pc: self@.pc, ..mid }));
                }
            },
            0x6 => {
                let pc2 = self.load_vx();
                self.pc = pc2;
                proof {
                    assert(self@ =~= (MachineView { regs: self@.regs, pc: self@.pc, ..mid }));
                }
            },
            0x7 => {
                let pc2 = self.add_vx();
                self.pc = pc2;
                proof {
                    assert(self@ =~= (MachineView { regs: self@.regs, pc: self@.pc, ..mid }));
                }
            },
            0x8 => {
                match low(low_byte) {
                    0x0 => {
                        let pc2 = self.set_vx_to_vy();
                        self.pc = pc2;
                        proof {
                            assert(self@ =~= (MachineView {
                                regs: self@.regs,
                                pc: self@.pc,
                                ..mid
                            }));
                        }
                    },
                    0x1 => {
                        let pc2 = self.vx_or_vy();
                        self.pc = pc2;
                        proof {
                            assert(self@ =~= (MachineView {
                                regs: self@.regs,
                                pc: self@.pc,
                                ..mid
                            }));
                        }
                    },
                    0x2 => {
                        let pc2 = self.vx_and_vy();
                        self.pc = pc2;
                        proof {
                            assert(self@ =~= (MachineView {
                                regs: self@.regs,
                                pc: self@.pc,
                                ..mid
                            }));
                        }
                    },
                    0x3 => {
                        let pc2 = self.vx_xor_vy();
                        self.pc = pc2;
                        proof {
                            assert(self@ =~= (MachineView {
                                regs: self@.regs,
                                pc: self@.pc,
                                ..mid
                            }));
                        }
                    },
                    0x4 => {
                        let pc2 = self.add_vx_and_vy();
                        self.pc = pc2;
                        proof {
                            assert(self@ =~= (MachineView {
                                regs: self@.regs,
                                pc: self@.pc,
                                ..mid
                            }));
                        }
                    },
                    0x5 => {
                        let pc2 = self.sub_vx_and_vy();
                        self.pc = pc2;
                        proof {
                            assert(self@ =~= (MachineView {
                                regs: self@.regs,
                                pc: self@.pc,
                                ..mid
                            }));
                        }
                    },
                    0x6 => {
                        let pc2 = self.vx_shr();
                        self.pc = pc2;
                        proof {
                            assert(self@ =~= (MachineView {
                                regs: self@.regs,
                                pc: self@.pc,
                                ..mid
                            }));
                        }
                    },
                    0x7 => {
                        let pc2 = self.vx_subn_vy();
                        self.pc = pc2;
                        proof {
                            assert(self@ =~= (MachineView {
                                regs: self@.regs,
                                pc: self@.pc,
                                ..mid
                            }));
                        }
                    },
                    0xE => {
                        let pc2 = self.vx_shl();
                        self.pc = pc2;
                        proof {
                            assert(self@ =~= (MachineView {
                                regs: self@.regs,
                                pc: self@.pc,
                                ..mid
                            }));
                        }
                    },
                    _ => {
                        proof {
                            assert(step_rel(
                                mid,
                                self@,
                                keymap@,
                                Err::<(), Error>(
                                    Error::UnrecognisedInstruction(high_byte, low_byte),
                                ),
                            ));
                        }
                        return Err(Error::UnrecognisedInstruction(high_byte, low_byte));
                    },
                }
            },
            0x9 => {
                let pc2 = self.skip_vx_neq_vy();
                self.pc = pc2;
                proof {
                    assert(self@ =~= (MachineView { pc: self@.pc, ..mid }));
                }
            },
            0xA => {
                let pc2 = self.load_i();
                self.pc = pc2;
                proof {
                    assert(self@ =~= (MachineView { i: self@.i, pc: self@.pc, ..mid }));
                }
            },
            0xB => {
                let pc2 = self.jump_plus_v0();
                self.pc = pc2;
                proof {
                    assert(self@ =~= (MachineView { pc: self@.pc, ..mid }));
                }
            },
            0xC => {
                let pc2 = self.rand();
                self.pc = pc2;
                proof {
                    let x = low_nib(mid.ram[mid.pc]);
                    let kk = mid.ram[next_pc(mid.pc, 1)];
                    let b = choose|b: u8| self@.regs == mid.regs.update(x as int, b & kk);
                    assert(self@ =~= (MachineView {
                        regs: mid.regs.update(x as int, b & kk),
                        pc: next_pc(mid.pc, 2),
                        ..mid
                    }));
                }
            },
            0xD => {
                let pc2 = self.draw();
                self.pc = pc2;
                proof {
                    assert(self@ =~= (MachineView {
                        screen: self@.screen,
                        regs: self@.regs,
                        pc: self@.pc,
                        ..mid
                    }));
                }
            },
            0xE => {
                match low_byte {
                    0x9E => {
                        let pc2 = self.skip_pressed(keymap);
                        self.pc = pc2;
                        proof {
                            assert(self@ =~= (MachineView { pc: self@.pc, ..mid }));
                        }
                    },
                    0xA1 => {
                        let pc2 = self.skip_not_pressed(keymap);
                        self.pc = pc2;
                        proof {
                            assert(self@ =~= (MachineView { pc: self@.pc, ..mid }));
                        }
                    },
                    _ => {
                        proof {
                            assert(step_rel(
                                mid,
                                self@,
                                keymap@,
                                Err::<(), Error>(
                                    Error::UnrecognisedInstruction(high_byte, low_byte),
                                ),
                            ));
                        }
                        return Err(Error::UnrecognisedInstruction(high_byte, low_byte));
                    },
                }
            },
            _ => {
                match low_byte {
                    0x07 => {
                        let pc2 = self.set_vx_delay_timer();
                        self.pc = pc2;
                        proof {
                            assert(self@ =~= (MachineView {
                                regs: self@.regs,
                                pc: self@.pc,
                                ..mid
                            }));
                        }
                    },
                    0x0A => {
                        let pc2 = self.wait_and_load_key_press(keymap);
                        self.pc = pc2;
                        proof {
                            match keymap@.recent {
                                Some(k) => {
                                    assert(self@ =~= (MachineView {
                                        regs: self@.regs,
                                        pc: self@.pc,
                                        ..mid
                                    }));
                                },
                                None => {
                                    assert(self@ =~= mid);
                                },
                            }
                        }
                    },
                    0x15 => {
                        let pc2 = self.set_delay_timer();
                        self.pc = pc2;
                        proof {
                            assert(self@ =~= (MachineView { dt: self@.dt, pc: self@.pc, ..mid }));
                        }
                    },
                    0x18 => {
                        let pc2 = self.set_sound_timer();
                        self.pc = pc2;
                        proof {
                            assert(self@ =~= (MachineView { st: self@.st, pc: self@.pc, ..mid }));
                        }
                    },
                    0x1E => {
                        let pc2 = self.add();
                        self.pc = pc2;
                        proof {
                            assert(self@ =~= (MachineView { i: self@.i, pc: self@.pc, ..mid }));
                        }
                    },
                    0x29 => {
                        let pc2 = self.set_i_to_sprite_vx();
                        self.pc = pc2;
                        proof {
                            assert(self@ =~= (MachineView { i: self@.i, pc: self@.pc, ..mid }));
                        }
                    },
                    0x33 => {
                        let pc2 = self.store_bcd();
                        self.pc = pc2;
                        proof {
                            assert(self@ =~= (MachineView { ram: self@.ram, pc: self@.pc, ..mid }));
                        }
                    },
                    0x55 => {
                        let pc2 = self.store_array();
                        self.pc = pc2;
                        proof {
                            assert(self@ =~= (MachineView { ram: self@.ram, pc: self@.pc, ..mid }));
                        }
                    },
                    0x65 => {
                        let pc2 = self.load_array();
                        self.pc = pc2;
                        proof {
                            assert(self@ =~= (MachineView {
                                regs: self@.regs,
                                pc: self@.pc,
                                ..mid
                            }));
                        }
                    },
                    _ => {
                        proof {
                            assert(step_rel(
                                mid,
                                self@,
                                keymap@,
                                Err::<(), Error>(
                                    Error::UnrecognisedInstruction(high_byte, low_byte),
                                ),
                            ));
                        }
                        return Err(Error::UnrecognisedInstruction(high_byte, low_byte));
                    },
                }
            },
        }

        proof {
            assert(step_rel(mid, self@, keymap@, Ok::<(), Error>(())));
        }
        Ok(())
    }

    /// Read general register `x`.
    pub fn register(&self, x: u8) -> (value: u8)
        requires
            self.wf(),
            x < 16,
        ensures
            value == self@.regs[x as int],
    {
        self.registers.get(x)
    }

    /// The current program counter.
    pub fn program_counter(&self) -> (pc: usize)
        requires
            self.wf(),
        ensures
            pc == self@.pc,
    {
        self.pc
    }

    /// The current stack pointer: the number of saved return addresses.
    pub fn stack_pointer(&self) -> (sp: usize)
        requires
            self.wf(),
        ensures
            sp == self@.sp,
    {
        self.sp
    }

    /// The saved return address in stack slot `k`.
    pub fn stack_at(&self, k: usize) -> (a: usize)
        requires
            self.wf(),
            k < STACK_DEPTH,
        ensures
            a == self@.stack[k as int],
    {
        self.stack[k]
    }

    /// The memory byte at `addr`.
    pub fn ram_at(&self, addr: usize) -> (b: u8)
        requires
            self.wf(),
            addr < MEMORY_SIZE,
        ensures
            b == self@.ram[addr as int],
    {
        self.ram[addr]
    }

    /// The address register.
    pub fn address_register(&self) -> (i: u16)
        requires
            self.wf(),
        ensures
            i == self@.i,
    {
        self.registers.i
    }

    /// The delay timer.
    pub fn delay_timer(&self) -> (t: u8)
        ensures
            t == self@.dt,
    {
        self.registers.dt
    }

    /// The sound timer.
    pub fn sound_timer(&self) -> (t: u8)
        ensures
            t == self@.st,
    {
        self.registers.st
    }

    /// Enable or disable the diagnostic trace flag. The machine state proper
    /// is untouched.
    pub fn set_debug_output(&mut self, value: bool)
        requires
            old(self).wf(),
        ensures
            final(self).wf(),
            final(self)@ == old(self)@,
            final(self).spec_clock() == old(self).spec_clock(),
    {
        self.debug_output = value;
    }
}

} // verus!
