//! The machine state model: sizes, the abstract view of the machine, and the
//! initial (just-constructed) state with the hexadecimal font loaded.

use vstd::prelude::*;

verus! {

/// Number of bytes of addressable memory.
pub const RAM_SIZE: usize = 4096;
/// Number of general-purpose 8-bit registers.
pub const NUM_REGS: usize = 16;
/// Number of return addresses the call stack can hold.
pub const STACK_SIZE: usize = 16;
/// Number of logical keys.
pub const NUM_KEYS: usize = 16;
/// Width of the display in pixels.
pub const SCREEN_WIDTH: usize = 64;
/// Height of the display in pixels.
pub const SCREEN_HEIGHT: usize = 32;
/// Address at which program bytes are loaded and execution starts.
pub const START_ADDR: u16 = 0x200;
/// Number of bytes of the built-in font: 16 glyphs of 5 bytes each.
pub const FONT_SIZE: usize = 80;

/// The abstract state of the machine: what every contract of the interpreter
/// speaks about.
#[verifier::ext_equal]
pub struct EmuView {
    /// Program counter.
    pub pc: u16,
    /// Addressable memory, `RAM_SIZE` bytes.
    pub ram: Seq<u8>,
    /// Framebuffer, row-major, pixel (x, y) at index `x + SCREEN_WIDTH * y`.
    pub screen: Seq<bool>,
    /// General-purpose registers; register 0xF doubles as the flag register.
    pub v_reg: Seq<u8>,
    /// Index register, a memory-address cursor.
    pub i_reg: u16,
    /// Stack pointer: number of return addresses currently on the stack.
    pub sp: u16,
    /// Return-address stack, `STACK_SIZE` slots.
    pub stack: Seq<u16>,
    /// Key state, written by the host, read by the interpreter.
    pub keys: Seq<bool>,
    /// Delay timer countdown register.
    pub dt: u8,
    /// Sound timer countdown register.
    pub st: u8,
}

impl EmuView {
    /// All fixed-size parts of the state have their fixed sizes, and the
    /// stack pointer never points past the stack.
    pub open spec fn wf(self) -> bool {
        &&& self.ram.len() == RAM_SIZE
        &&& self.screen.len() == SCREEN_WIDTH * SCREEN_HEIGHT
        &&& self.v_reg.len() == NUM_REGS
        &&& self.stack.len() == STACK_SIZE
        &&& self.keys.len() == NUM_KEYS
        &&& self.sp <= STACK_SIZE
    }
}

/// The 16-glyph hexadecimal font: glyph `c` occupies the 5 bytes starting at
/// address `c * 5`.
pub open spec fn font_data() -> Seq<u8> {
    seq![
        0xF0, 0x90, 0x90, 0x90, 0xF0,
        0x20, 0x60, 0x20, 0x20, 0x70,
        0xF0, 0x10, 0xF0, 0x80, 0xF0,
        0xF0, 0x10, 0xF0, 0x10, 0xF0,
        0x90, 0x90, 0xF0, 0x10, 0x10,
        0xF0, 0x80, 0xF0, 0x10, 0xF0,
        0xF0, 0x80, 0xF0, 0x90, 0xF0,
        0xF0, 0x10, 0x20, 0x40, 0x40,
        0xF0, 0x90, 0xF0, 0x90, 0xF0,
        0xF0, 0x90, 0xF0, 0x10, 0xF0,
        0xF0, 0x90, 0xF0, 0x90, 0x90,
        0xE0, 0x90, 0xE0, 0x90, 0xE0,
        0xF0, 0x80, 0x80, 0x80, 0xF0,
        0xE0, 0x90, 0x90, 0x90, 0xE0,
        0xF0, 0x80, 0xF0, 0x80, 0xF0,
        0xF0, 0x80, 0xF0, 0x80, 0x80,
    ]
}

/// The five rows of the font glyph for hexadecimal digit `c`.
pub open spec fn glyph_sprite(c: int) -> Seq<u8> {
    if c == 0x0 {
        seq![0xF0, 0x90, 0x90, 0x90, 0xF0]
    } else if c == 0x1 {
        seq![0x20, 0x60, 0x20, 0x20, 0x70]
    } else if c == 0x2 {
        seq![0xF0, 0x10, 0xF0, 0x80, 0xF0]
    } else if c == 0x3 {
        seq![0xF0, 0x10, 0xF0, 0x10, 0xF0]
    } else if c == 0x4 {
        seq![0x90, 0x90, 0xF0, 0x10, 0x10]
    } else if c == 0x5 {
        seq![0xF0, 0x80, 0xF0, 0x10, 0xF0]
    } else if c == 0x6 {
        seq![0xF0, 0x80, 0xF0, 0x90, 0xF0]
    } else if c == 0x7 {
        seq![0xF0, 0x10, 0x20, 0x40, 0x40]
    } else if c == 0x8 {
        seq![0xF0, 0x90, 0xF0, 0x90, 0xF0]
    } else if c == 0x9 {
        seq![0xF0, 0x90, 0xF0, 0x10, 0xF0]
    } else if c == 0xA {
        seq![0xF0, 0x90, 0xF0, 0x90, 0x90]
    } else if c == 0xB {
        seq![0xE0, 0x90, 0xE0, 0x90, 0xE0]
    } else if c == 0xC {
        seq![0xF0, 0x80, 0x80, 0x80, 0xF0]
    } else if c == 0xD {
        seq![0xE0, 0x90, 0x90, 0x90, 0xE0]
    } else if c == 0xE {
        seq![0xF0, 0x80, 0xF0, 0x80, 0xF0]
    } else {
        seq![0xF0, 0x80, 0xF0, 0x80, 0x80]
    }
}

/// The state of the machine right after construction and after a reset: the
/// font in the first `FONT_SIZE` bytes of memory, everything else zeroed, the
/// program counter at `START_ADDR`.
pub open spec fn initial_view() -> EmuView {
    EmuView {
        pc: START_ADDR,
        ram: Seq::new(RAM_SIZE as nat, |i: int| if i < FONT_SIZE { font_data()[i] } else { 0u8 }),
        screen: Seq::new((SCREEN_WIDTH * SCREEN_HEIGHT) as nat, |i: int| false),
        v_reg: Seq::new(NUM_REGS as nat, |i: int| 0u8),
        i_reg: 0,
        sp: 0,
        stack: Seq::new(STACK_SIZE as nat, |i: int| 0u16),
        keys: Seq::new(NUM_KEYS as nat, |i: int| false),
        dt: 0,
        st: 0,
    }
}

} // verus!
