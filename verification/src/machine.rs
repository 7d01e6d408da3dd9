//! The executable interpreter: the machine state as it is held at run time,
//! proved to follow the transition functions of the semantics module.

use vstd::prelude::*;

verus! {

use crate::semantics::Fault;
use crate::semantics::spec_execute;
use crate::semantics::spec_tick;
use crate::semantics::timer_step;
use crate::state::EmuView;
use crate::state::FONT_SIZE;
use crate::state::NUM_KEYS;
use crate::state::NUM_REGS;
use crate::state::RAM_SIZE;
use crate::state::SCREEN_HEIGHT;
use crate::state::SCREEN_WIDTH;
use crate::state::STACK_SIZE;
use crate::state::START_ADDR;
use crate::state::font_data;
use crate::state::initial_view;

/// The CHIP-8 machine: all emulated state, exclusively owned by the host.
pub struct Emu {
    pc: u16,
    ram: Vec<u8>,
    screen: Vec<bool>,
    v_reg: Vec<u8>,
    i_reg: u16,
    sp: u16,
    stack: Vec<u16>,
    keys: Vec<bool>,
    dt: u8,
    st: u8,
}

impl View for Emu {
    type V = EmuView;

    closed spec fn view(&self) -> EmuView {
        EmuView {
            pc: self.pc,
            ram: self.ram@,
            screen: self.screen@,
            v_reg: self.v_reg@,
            i_reg: self.i_reg,
            sp: self.sp,
            stack: self.stack@,
            keys: self.keys@,
            dt: self.dt,
            st: self.st,
        }
    }
}

/// A vector of `n` copies of `val`.
fn filled<T: Copy>(val: T, n: usize) -> (v: Vec<T>)
    ensures
        v@ == Seq::new(n as nat, |i: int| val),
{
    let mut v: Vec<T> = Vec::new();
    while v.len() < n
        invariant
            v@.len() <= n,
            forall|i: int| 0 <= i < v@.len() ==> v@[i] == val,
        decreases n - v@.len(),
    {
        v.push(val);
    }
    proof {
        assert(v@ =~= Seq::new(n as nat, |i: int| val));
    }
    v
}

/// The font table as bytes, in glyph order.
fn font_bytes() -> (v: Vec<u8>)
    ensures
        v@ == font_data(),
{
    let mut v: Vec<u8> = Vec::with_capacity(FONT_SIZE);
    v.push(0xF0); v.push(0x90); v.push(0x90); v.push(0x90); v.push(0xF0);
    v.push(0x20); v.push(0x60); v.push(0x20); v.push(0x20); v.push(0x70);
    v.push(0xF0); v.push(0x10); v.push(0xF0); v.push(0x80); v.push(0xF0);
    v.push(0xF0); v.push(0x10); v.push(0xF0); v.push(0x10); v.push(0xF0);
    v.push(0x90); v.push(0x90); v.push(0xF0); v.push(0x10); v.push(0x10);
    v.push(0xF0); v.push(0x80); v.push(0xF0); v.push(0x10); v.push(0xF0);
    v.push(0xF0); v.push(0x80); v.push(0xF0); v.push(0x90); v.push(0xF0);
    v.push(0xF0); v.push(0x10); v.push(0x20); v.push(0x40); v.push(0x40);
    v.push(0xF0); v.push(0x90); v.push(0xF0); v.push(0x90); v.push(0xF0);
    v.push(0xF0); v.push(0x90); v.push(0xF0); v.push(0x10); v.push(0xF0);
    v.push(0xF0); v.push(0x90); v.push(0xF0); v.push(0x90); v.push(0x90);
    v.push(0xE0); v.push(0x90); v.push(0xE0); v.push(0x90); v.push(0xE0);
    v.push(0xF0); v.push(0x80); v.push(0x80); v.push(0x80); v.push(0xF0);
    v.push(0xE0); v.push(0x90); v.push(0x90); v.push(0x90); v.push(0xE0);
    v.push(0xF0); v.push(0x80); v.push(0xF0); v.push(0x80); v.push(0xF0);
    v.push(0xF0); v.push(0x80); v.push(0xF0); v.push(0x80); v.push(0x80);
    proof {
        assert(v@ =~= font_data());
    }
    v
}

/// Relies on rand::random: one arbitrary byte. Nothing can be promised of its
/// value, so the contract says nothing of it.
#[verifier::external_body]
fn random_byte() -> (r: u8) {
    rand::random::<u8>()
}

impl Emu {
    /// The fixed sizes of the machine's backing storage hold.
    pub open spec fn wf(&self) -> bool {
        self@.wf()
    }

    /// A machine in the initial state: font loaded, everything else zeroed,
    /// program counter at the start address.
    pub fn new() -> (r: Self)
        ensures
            r.wf(),
            r@ == initial_view(),
    {
        let mut ram = font_bytes();
        while ram.len() < RAM_SIZE
            invariant
                FONT_SIZE <= ram@.len() <= RAM_SIZE,
                forall|i: int| 0 <= i < FONT_SIZE ==> ram@[i] == font_data()[i],
                forall|i: int| FONT_SIZE <= i < ram@.len() ==> ram@[i] == 0u8,
            decreases RAM_SIZE - ram@.len(),
        {
            ram.push(0);
        }
        let r = Emu {
            pc: START_ADDR,
            ram,
            screen: filled(false, SCREEN_WIDTH * SCREEN_HEIGHT),
            v_reg: filled(0u8, NUM_REGS),
            i_reg: 0,
            sp: 0,
            stack: filled(0u16, STACK_SIZE),
            keys: filled(false, NUM_KEYS),
            dt: 0,
            st: 0,
        };
        proof {
            assert(r@ =~= initial_view());
        }
        r
    }

    /// Restore the just-constructed state: font reloaded, all else zeroed.
    pub fn reset(&mut self)
        ensures
            final(self).wf(),
            final(self)@ == initial_view(),
    {
        *self = Self::new();
    }

    /// The framebuffer, row-major, pixel (x, y) at index x + SCREEN_WIDTH * y.
    pub fn get_display(&self) -> (r: &[bool])
        ensures
            r@ == self@.screen,
    {
        self.screen.as_slice()
    }

    /// Set the state of key `idx`; the host calls this from its input loop.
    pub fn keypress(&mut self, idx: usize, pressed: bool)
        requires
            old(self).wf(),
            idx < NUM_KEYS,
        ensures
            final(self).wf(),
            final(self)@ == (EmuView { keys: old(self)@.keys.update(idx as int, pressed), ..old(self)@ }),
    {
        self.keys[idx] = pressed;
    }

    /// Copy the program bytes into memory starting at the start address. The
    /// caller must ensure the program fits in the memory past that address.
    pub fn load(&mut self, data: &[u8])
        requires
            old(self).wf(),
            START_ADDR + data@.len() <= RAM_SIZE,
        ensures
            final(self).wf(),
            final(self)@ == (EmuView {
                ram: Seq::new(
                    RAM_SIZE as nat,
                    |i: int|
                        if START_ADDR <= i < START_ADDR + data@.len() {
                            data@[i - START_ADDR]
                        } else {
                            old(self)@.ram[i]
                        },
                ),
                ..old(self)@
            }),
    {
        let start = START_ADDR as usize;
        let mut k: usize = 0;
        while k < data.len()
            invariant
                old(self).wf(),
                k <= data@.len(),
                start == START_ADDR as usize,
                start + data@.len() <= RAM_SIZE,
                self.ram@.len() == RAM_SIZE,
                forall|i: int|
                    start <= i < start + k ==> self.ram@[i] == data@[i - start],
                forall|i: int|
                    0 <= i < RAM_SIZE && !(start <= i < start + k) ==> self.ram@[i] == old(
                        self,
                    )@.ram[i],
                self.pc == old(self).pc,
                self.screen@ == old(self)@.screen,
                self.v_reg@ == old(self)@.v_reg,
                self.i_reg == old(self).i_reg,
                self.sp == old(self).sp,
                self.stack@ == old(self)@.stack,
                self.keys@ == old(self)@.keys,
                self.dt == old(self).dt,
                self.st == old(self).st,
            decreases data@.len() - k,
        {
            let b = *vstd::slice::slice_index_get(data, k);
            self.ram[start + k] = b;
            k = k + 1;
        }
        proof {
            assert(self@ =~= (EmuView {
                ram: Seq::new(
                    RAM_SIZE as nat,
                    |i: int|
                        if START_ADDR <= i < START_ADDR + data@.len() {
                            data@[i - START_ADDR]
                        } else {
                            old(self)@.ram[i]
                        },
                ),
                ..old(self)@
            }));
        }
    }

    /// One call of the timer unit: decrement each nonzero countdown register.
    pub fn tick_timers(&mut self)
        requires
            old(self).wf(),
        ensures
            final(self).wf(),
            final(self)@ == timer_step(old(self)@),
    {
        if self.dt > 0 {
            self.dt = self.dt - 1;
        }
        if self.st > 0 {
            self.st = self.st - 1;
        }
    }

    /// Program counter, for observation by the host and tests.
    pub fn get_pc(&self) -> (r: u16)
        ensures
            r == self@.pc,
    {
        self.pc
    }

    /// Index register, for observation by the host and tests.
    pub fn get_index_register(&self) -> (r: u16)
        ensures
            r == self@.i_reg,
    {
        self.i_reg
    }

    /// General-purpose register `idx`, for observation by the host and tests.
    pub fn get_register(&self, idx: usize) -> (r: u8)
        requires
            self.wf(),
            idx < NUM_REGS,
        ensures
            r == self@.v_reg[idx as int],
    {
        self.v_reg[idx]
    }

    /// Memory byte at `addr`, for observation by the host and tests.
    pub fn get_memory(&self, addr: usize) -> (r: u8)
        requires
            self.wf(),
            addr < RAM_SIZE,
        ensures
            r == self@.ram[addr as int],
    {
        self.ram[addr]
    }

    /// Delay timer, for observation by the host and tests.
    pub fn get_delay_timer(&self) -> (r: u8)
        ensures
            r == self@.dt,
    {
        self.dt
    }

    /// Sound timer, for observation by the host and tests. The host emits a
    /// tone while it is nonzero.
    pub fn get_sound_timer(&self) -> (r: u8)
        ensures
            r == self@.st,
    {
        self.st
    }

    /// Push a return address; faults on a full stack.
    fn push(&mut self, val: u16) -> (r: Result<(), Fault>)
        requires
            old(self).wf(),
        ensures
            final(self).wf(),
            match r {
                Ok(()) => old(self)@.sp < STACK_SIZE && final(self)@ == (EmuView {
                    stack: old(self)@.stack.update(old(self)@.sp as int, val),
                    sp: (old(self)@.sp + 1) as u16,
                    ..old(self)@
                }),
                Err(e) => {
                    &&& e == Fault::OutOfBounds
                    &&& old(self)@.sp >= STACK_SIZE
                    &&& final(self)@ == old(self)@
                },
            },
    {
        if self.sp >= STACK_SIZE as u16 {
            return Err(Fault::OutOfBounds);
        }
        self.stack[self.sp as usize] = val;
        self.sp = self.sp + 1;
        Ok(())
    }

    /// Pop a return address; faults on an empty stack.
    fn pop(&mut self) -> (r: Result<u16, Fault>)
        requires
            old(self).wf(),
        ensures
            final(self).wf(),
            match r {
                Ok(val) => {
                    &&& old(self)@.sp > 0
                    &&& val == old(self)@.stack[old(self)@.sp - 1]
                    &&& final(self)@ == (EmuView { sp: (old(self)@.sp - 1) as u16, ..old(self)@ })
                },
                Err(e) => {
                    &&& e == Fault::OutOfBounds
                    &&& old(self)@.sp == 0
                    &&& final(self)@ == old(self)@
                },
            },
    {
        if self.sp == 0 {
            return Err(Fault::OutOfBounds);
        }
        self.sp = self.sp - 1;
        let val = self.stack[self.sp as usize];
        Ok(val)
    }

    /// Draw the `n`-row sprite at memory address I to the origin given by
    /// registers `x` and `y`: every set sprite bit toggles its (wrapped)
    /// target pixel, and the flag register reports whether some lit pixel
    /// was turned off. Faults, changing nothing, if a sprite row would be
    /// read past the end of memory.
    fn op_draw(&mut self, x: usize, y: usize, n: usize) -> (r: Result<(), Fault>)
        requires
            old(self).wf(),
            x < NUM_REGS,
            y < NUM_REGS,
            n < 16,
        ensures
            final(self).wf(),
            match r {
                Ok(()) => ({
                    let i = old(self)@.i_reg as int;
                    let xc = old(self)@.v_reg[x as int] as int;
                    let yc = old(self)@.v_reg[y as int] as int;
                    &&& (n == 0 || i + n <= RAM_SIZE)
                    &&& final(self)@ == (EmuView {
                        screen: crate::semantics::draw_screen(
                            old(self)@.screen,
                            old(self)@.ram,
                            i,
                            n as int,
                            xc,
                            yc,
                        ),
                        v_reg: old(self)@.v_reg.update(
                            0xF,
                            if crate::semantics::draw_collision(
                                old(self)@.screen,
                                old(self)@.ram,
                                i,
                                n as int,
                                xc,
                                yc,
                            ) {
                                1u8
                            } else {
                                0u8
                            },
                        ),
                        ..old(self)@
                    })
                }),
                Err(e) => {
                    &&& e == Fault::OutOfBounds
                    &&& n > 0 && old(self)@.i_reg + n > RAM_SIZE
                    &&& final(self)@ == old(self)@
                },
            },
    {
        let i0 = self.i_reg as usize;
        if n > 0 && i0 + n > RAM_SIZE {
            return Err(Fault::OutOfBounds);
        }
        let xc = self.v_reg[x] as usize;
        let yc = self.v_reg[y] as usize;
        let ghost s0 = self@;
        let ghost gi = self.i_reg as int;
        let ghost gxc = xc as int;
        let ghost gyc = yc as int;
        let mut flipped = false;
        let mut row: usize = 0;
        proof {
            assert forall|idx: int| 0 <= idx < s0.screen.len() implies !crate::semantics::draw_hits_upto(
                s0.ram,
                gi,
                gxc,
                gyc,
                0,
                0,
                idx,
            ) by {
                if crate::semantics::draw_hits_upto(s0.ram, gi, gxc, gyc, 0, 0, idx) {
                    let (r_, c_) = choose|r_: int, c_: int|
                        0 <= r_ && 0 <= c_ < 8 && (r_ < 0 || (r_ == 0 && c_ < 0))
                            && crate::semantics::row_bit(s0.ram[gi + r_], c_)
                            && crate::semantics::pix_index(gxc, gyc, r_, c_) == idx;
                    assert(false);
                }
            }
            if crate::semantics::draw_collision_upto(s0.screen, s0.ram, gi, gxc, gyc, 0, 0) {
                let (r_, c_) = choose|r_: int, c_: int|
                    0 <= r_ && 0 <= c_ < 8 && (r_ < 0 || (r_ == 0 && c_ < 0))
                        && crate::semantics::row_bit(s0.ram[gi + r_], c_)
                        && s0.screen[crate::semantics::pix_index(gxc, gyc, r_, c_)];
                assert(false);
            }
        }
        while row < n
            invariant
                s0 == old(self)@,
                s0.wf(),
                self.pc == s0.pc,
                self.ram@ == s0.ram,
                self.v_reg@ == s0.v_reg,
                self.i_reg == s0.i_reg,
                self.sp == s0.sp,
                self.stack@ == s0.stack,
                self.keys@ == s0.keys,
                self.dt == s0.dt,
                self.st == s0.st,
                self.screen@.len() == s0.screen.len(),
                row <= n,
                n < 16,
                x < NUM_REGS,
                y < NUM_REGS,
                gi == s0.i_reg as int,
                gxc == s0.v_reg[x as int] as int,
                gyc == s0.v_reg[y as int] as int,
                xc == gxc,
                yc == gyc,
                i0 == s0.i_reg as usize,
                n == 0 || i0 + n <= RAM_SIZE,
                forall|idx: int|
                    0 <= idx < s0.screen.len() ==> self.screen@[idx] == (s0.screen[idx]
                        != crate::semantics::draw_hits_upto(
                        s0.ram,
                        gi,
                        gxc,
                        gyc,
                        row as int,
                        0,
                        idx,
                    )),
                flipped == crate::semantics::draw_collision_upto(
                    s0.screen,
                    s0.ram,
                    gi,
                    gxc,
                    gyc,
                    row as int,
                    0,
                ),
            decreases n - row,
        {
            let pixels = self.ram[i0 + row];
            let mut col: usize = 0;
            let mut weight: u8 = 128;
            while col < 8
                invariant
                    s0 == old(self)@,
                    s0.wf(),
                    self.pc == s0.pc,
                    self.ram@ == s0.ram,
                    self.v_reg@ == s0.v_reg,
                    self.i_reg == s0.i_reg,
                    self.sp == s0.sp,
                    self.stack@ == s0.stack,
                    self.keys@ == s0.keys,
                    self.dt == s0.dt,
                    self.st == s0.st,
                    self.screen@.len() == s0.screen.len(),
                    col <= 8,
                    row < n,
                    n < 16,
                    col < 8 ==> weight == crate::semantics::col_weight(col as int),
                    gi == s0.i_reg as int,
                    gxc == s0.v_reg[x as int] as int,
                    gyc == s0.v_reg[y as int] as int,
                    xc == gxc,
                    yc == gyc,
                    i0 == s0.i_reg as usize,
                    i0 + n <= RAM_SIZE,
                    pixels == s0.ram[gi + row],
                    forall|idx: int|
                        0 <= idx < s0.screen.len() ==> self.screen@[idx] == (s0.screen[idx]
                            != crate::semantics::draw_hits_upto(
                            s0.ram,
                            gi,
                            gxc,
                            gyc,
                            row as int,
                            col as int,
                            idx,
                        )),
                    flipped == crate::semantics::draw_collision_upto(
                        s0.screen,
                        s0.ram,
                        gi,
                        gxc,
                        gyc,
                        row as int,
                        col as int,
                    ),
                decreases 8 - col,
            {
                proof {
                    assert(weight > 0);
                }
                if (pixels / weight) % 2 == 1 {
                    let xi = (xc + col) % SCREEN_WIDTH;
                    let yi = (yc + row) % SCREEN_HEIGHT;
                    let idx = xi + SCREEN_WIDTH * yi;
                    proof {
                        assert(crate::semantics::row_bit(s0.ram[gi + row], col as int));
                        assert(crate::semantics::pix_index(gxc, gyc, row as int, col as int)
                            == idx as int);
                        crate::semantics::lemma_target_fresh(
                            s0.ram,
                            gi,
                            gxc,
                            gyc,
                            row as int,
                            col as int,
                        );
                        assert(idx < s0.screen.len());
                    }
                    let prev = self.screen[idx];
                    proof {
                        assert(prev == s0.screen[idx as int]);
                        crate::semantics::lemma_collision_col_step(
                            s0.screen,
                            s0.ram,
                            gi,
                            gxc,
                            gyc,
                            row as int,
                            col as int,
                        );
                    }
                    flipped = flipped || prev;
                    self.screen[idx] = !prev;
                    proof {
                        assert forall|id2: int| 0 <= id2 < s0.screen.len() implies self.screen@[id2]
                            == (s0.screen[id2] != crate::semantics::draw_hits_upto(
                            s0.ram,
                            gi,
                            gxc,
                            gyc,
                            row as int,
                            col as int + 1,
                            id2,
                        )) by {
                            if id2 == idx as int {
                                assert(crate::semantics::draw_hits_upto(
                                    s0.ram,
                                    gi,
                                    gxc,
                                    gyc,
                                    row as int,
                                    col as int + 1,
                                    id2,
                                ));
                            } else {
                                crate::semantics::lemma_upto_col_other(
                                    s0.ram,
                                    gi,
                                    gxc,
                                    gyc,
                                    row as int,
                                    col as int,
                                    id2,
                                );
                            }
                        }
                    }
                } else {
                    proof {
                        assert(!crate::semantics::row_bit(s0.ram[gi + row], col as int));
                        assert forall|id2: int| 0 <= id2 < s0.screen.len() implies self.screen@[id2]
                            == (s0.screen[id2] != crate::semantics::draw_hits_upto(
                            s0.ram,
                            gi,
                            gxc,
                            gyc,
                            row as int,
                            col as int + 1,
                            id2,
                        )) by {
                            crate::semantics::lemma_upto_col_other(
                                s0.ram,
                                gi,
                                gxc,
                                gyc,
                                row as int,
                                col as int,
                                id2,
                            );
                        }
                        crate::semantics::lemma_collision_col_step(
                            s0.screen,
                            s0.ram,
                            gi,
                            gxc,
                            gyc,
                            row as int,
                            col as int,
                        );
                    }
                }
                weight = weight / 2;
                col = col + 1;
            }
            proof {
                assert forall|idx: int| 0 <= idx < s0.screen.len() implies self.screen@[idx] == (
                s0.screen[idx] != crate::semantics::draw_hits_upto(
                    s0.ram,
                    gi,
                    gxc,
                    gyc,
                    row as int + 1,
                    0,
                    idx,
                )) by {
                    crate::semantics::lemma_upto_row_rollover(s0.ram, gi, gxc, gyc, row as int, idx);
                }
                crate::semantics::lemma_collision_row_rollover(
                    s0.screen,
                    s0.ram,
                    gi,
                    gxc,
                    gyc,
                    row as int,
                );
            }
            row = row + 1;
        }
        proof {
            assert forall|idx: int| 0 <= idx < s0.screen.len() implies self.screen@[idx] == (
            s0.screen[idx] != crate::semantics::draw_hits(s0.ram, gi, n as int, gxc, gyc, idx)) by {
                crate::semantics::lemma_upto_full(s0.ram, gi, gxc, gyc, n as int, idx);
            }
            crate::semantics::lemma_collision_full(s0.screen, s0.ram, gi, gxc, gyc, n as int);
        }
        if flipped {
            self.v_reg[0xF] = 1;
        } else {
            self.v_reg[0xF] = 0;
        }
        proof {
            assert(self@ =~= (EmuView {
                screen: crate::semantics::draw_screen(s0.screen, s0.ram, gi, n as int, gxc, gyc),
                v_reg: s0.v_reg.update(
                    0xF,
                    if crate::semantics::draw_collision(s0.screen, s0.ram, gi, n as int, gxc, gyc) {
                        1u8
                    } else {
                        0u8
                    },
                ),
                ..s0
            }));
        }
        Ok(())
    }

    /// Fetch the big-endian instruction word at the program counter and
    /// advance the counter past it; faults if the word runs past the end of
    /// memory, leaving the machine unchanged.
    fn fetch(&mut self) -> (r: Result<u16, Fault>)
        requires
            old(self).wf(),
        ensures
            final(self).wf(),
            match r {
                Ok(op) => {
                    &&& old(self)@.pc + 1 < RAM_SIZE
                    &&& op == old(self)@.ram[old(self)@.pc as int] * 0x100 + old(self)@.ram[old(
                        self,
                    )@.pc as int + 1]
                    &&& final(self)@ == (EmuView { pc: (old(self)@.pc + 2) as u16, ..old(self)@ })
                },
                Err(e) => {
                    &&& e == Fault::OutOfBounds
                    &&& old(self)@.pc + 1 >= RAM_SIZE
                    &&& final(self)@ == old(self)@
                },
            },
    {
        if self.pc as usize + 1 >= RAM_SIZE {
            return Err(Fault::OutOfBounds);
        }
        let hi = self.ram[self.pc as usize] as u16;
        let lo = self.ram[self.pc as usize + 1] as u16;
        let op = hi * 0x100 + lo;
        self.pc = self.pc + 2;
        Ok(op)
    }

    /// Execute the already-fetched word `op`: exactly one instruction's
    /// semantics against the state, as [`spec_execute`] describes it. A fault
    /// leaves the machine unchanged.
    #[verifier::rlimit(100)]
    fn execute(&mut self, op: u16) -> (r: Result<(), Fault>)
        requires
            old(self).wf(),
            2 <= old(self)@.pc <= RAM_SIZE,
        ensures
            final(self).wf(),
            match r {
                Ok(()) => exists|b: u8|
                    spec_execute(old(self)@, op, b) == Ok::<EmuView, Fault>(final(self)@),
                Err(e) => final(self)@ == old(self)@ && forall|b: u8|
                    spec_execute(old(self)@, op, b) == Err::<EmuView, Fault>(e),
            },
    {
        let d1 = op / 0x1000;
        let d2 = (op / 0x100) % 0x10;
        let d3 = (op / 0x10) % 0x10;
        let d4 = op % 0x10;
        let x = d2 as usize;
        let y = d3 as usize;
        let nnn = op % 0x1000;
        let nn = (op % 0x100) as u8;
        if op == 0x0000 {
            // no-op
            proof {
                assert(spec_execute(old(self)@, op, 0u8) == Ok::<EmuView, Fault>(self@));
            }
            Ok(())
        } else if op == 0x00E0 {
            // clear display
            self.screen = filled(false, SCREEN_WIDTH * SCREEN_HEIGHT);
            proof {
                assert(self@ =~= (EmuView {
                    screen: Seq::new((SCREEN_WIDTH * SCREEN_HEIGHT) as nat, |i: int| false),
                    ..old(self)@
                }));
                assert(spec_execute(old(self)@, op, 0u8) == Ok::<EmuView, Fault>(self@));
            }
            Ok(())
        } else if op == 0x00EE {
            // return from subroutine
            match self.pop() {
                Ok(addr) => {
                    self.pc = addr;
                    proof {
                        assert(self@ =~= (EmuView {
                            pc: old(self)@.stack[old(self)@.sp - 1],
                            sp: (old(self)@.sp - 1) as u16,
                            ..old(self)@
                        }));
                        assert(spec_execute(old(self)@, op, 0u8) == Ok::<EmuView, Fault>(self@));
                    }
                    Ok(())
                },
                Err(e) => {
                    proof {
                        assert(forall|b: u8|
                            spec_execute(old(self)@, op, b) == Err::<EmuView, Fault>(e));
                    }
                    Err(e)
                },
            }
        } else if d1 == 0x1 {
            // jump
            self.pc = nnn;
            proof {
                assert(self@ =~= (EmuView { pc: nnn, ..old(self)@ }));
                assert(spec_execute(old(self)@, op, 0u8) == Ok::<EmuView, Fault>(self@));
            }
            Ok(())
        } else if d1 == 0x2 {
            // call subroutine
            let ret = self.pc;
            match self.push(ret) {
                Ok(()) => {
                    self.pc = nnn;
                    proof {
                        assert(self@ =~= (EmuView {
                            stack: old(self)@.stack.update(old(self)@.sp as int, old(self)@.pc),
                            sp: (old(self)@.sp + 1) as u16,
                            pc: nnn,
                            ..old(self)@
                        }));
                        assert(spec_execute(old(self)@, op, 0u8) == Ok::<EmuView, Fault>(self@));
                    }
                    Ok(())
                },
                Err(e) => {
                    proof {
                        assert(forall|b: u8|
                            spec_execute(old(self)@, op, b) == Err::<EmuView, Fault>(e));
                    }
                    Err(e)
                },
            }
        } else if d1 == 0x3 {
            // skip if VX == NN
            if self.v_reg[x] == nn {
                self.pc = self.pc + 2;
            }
            proof {
                assert(spec_execute(old(self)@, op, 0u8) == Ok::<EmuView, Fault>(self@));
            }
            Ok(())
        } else if d1 == 0x4 {
            // skip if VX != NN
            if self.v_reg[x] != nn {
                self.pc = self.pc + 2;
            }
            proof {
                assert(spec_execute(old(self)@, op, 0u8) == Ok::<EmuView, Fault>(self@));
            }
            Ok(())
        } else if d1 == 0x5 && d4 == 0x0 {
            // skip if VX == VY
            if self.v_reg[x] == self.v_reg[y] {
                self.pc = self.pc + 2;
            }
            proof {
                assert(spec_execute(old(self)@, op, 0u8) == Ok::<EmuView, Fault>(self@));
            }
            Ok(())
        } else if d1 == 0x6 {
            // VX = NN
            self.v_reg[x] = nn;
            proof {
                assert(spec_execute(old(self)@, op, 0u8) == Ok::<EmuView, Fault>(self@));
            }
            Ok(())
        } else if d1 == 0x7 {
            // VX += NN, wrapping, flag untouched
            let sum = self.v_reg[x] as u16 + nn as u16;
            self.v_reg[x] = if sum > 255 {
                (sum - 256) as u8
            } else {
                sum as u8
            };
            proof {
                assert(spec_execute(old(self)@, op, 0u8) == Ok::<EmuView, Fault>(self@));
            }
            Ok(())
        } else if d1 == 0x8 && d4 == 0x0 {
            // VX = VY
            self.v_reg[x] = self.v_reg[y];
            proof {
                assert(spec_execute(old(self)@, op, 0u8) == Ok::<EmuView, Fault>(self@));
            }
            Ok(())
        } else if d1 == 0x8 && d4 == 0x1 {
            // VX |= VY
            self.v_reg[x] = self.v_reg[x] | self.v_reg[y];
            proof {
                assert(spec_execute(old(self)@, op, 0u8) == Ok::<EmuView, Fault>(self@));
            }
            Ok(())
        } else if d1 == 0x8 && d4 == 0x2 {
            // VX &= VY
            self.v_reg[x] = self.v_reg[x] & self.v_reg[y];
            proof {
                assert(spec_execute(old(self)@, op, 0u8) == Ok::<EmuView, Fault>(self@));
            }
            Ok(())
        } else if d1 == 0x8 && d4 == 0x3 {
            // VX ^= VY
            self.v_reg[x] = self.v_reg[x] ^ self.v_reg[y];
            proof {
                assert(spec_execute(old(self)@, op, 0u8) == Ok::<EmuView, Fault>(self@));
            }
            Ok(())
        } else if d1 == 0x8 && d4 == 0x4 {
            // VX += VY, wrapping; flag = carry
            let sum = self.v_reg[x] as u16 + self.v_reg[y] as u16;
            self.v_reg[x] = if sum > 255 {
                (sum - 256) as u8
            } else {
                sum as u8
            };
            self.v_reg[0xF] = if sum > 255 {
                1
            } else {
                0
            };
            proof {
                assert(spec_execute(old(self)@, op, 0u8) == Ok::<EmuView, Fault>(self@));
            }
            Ok(())
        } else if d1 == 0x8 && d4 == 0x5 {
            // VX -= VY, wrapping; flag = 0 on borrow
            let vx = self.v_reg[x];
            let vy = self.v_reg[y];
            self.v_reg[x] = if vx < vy {
                (256 + vx as u16 - vy as u16) as u8
            } else {
                vx - vy
            };
            self.v_reg[0xF] = if vx < vy {
                0
            } else {
                1
            };
            proof {
                assert(spec_execute(old(self)@, op, 0u8) == Ok::<EmuView, Fault>(self@));
            }
            Ok(())
        } else if d1 == 0x8 && d4 == 0x6 {
            // VX >>= 1; flag = bit shifted out
            let vx = self.v_reg[x];
            self.v_reg[x] = vx / 2;
            self.v_reg[0xF] = vx % 2;
            proof {
                assert(spec_execute(old(self)@, op, 0u8) == Ok::<EmuView, Fault>(self@));
            }
            Ok(())
        } else if d1 == 0x8 && d4 == 0x7 {
            // VX = VY - VX, wrapping; flag = 0 on borrow
            let vx = self.v_reg[x];
            let vy = self.v_reg[y];
            self.v_reg[x] = if vy < vx {
                (256 + vy as u16 - vx as u16) as u8
            } else {
                vy - vx
            };
            self.v_reg[0xF] = if vy < vx {
                0
            } else {
                1
            };
            proof {
                assert(spec_execute(old(self)@, op, 0u8) == Ok::<EmuView, Fault>(self@));
            }
            Ok(())
        } else if d1 == 0x8 && d4 == 0xE {
            // VX <<= 1; flag = bit shifted out
            let vx = self.v_reg[x];
            let doubled = vx as u16 * 2;
            self.v_reg[x] = if doubled > 255 {
                (doubled - 256) as u8
            } else {
                doubled as u8
            };
            self.v_reg[0xF] = vx / 128;
            proof {
                assert(spec_execute(old(self)@, op, 0u8) == Ok::<EmuView, Fault>(self@));
            }
            Ok(())
        } else if d1 == 0x9 && d4 == 0x0 {
            // skip if VX != VY
            if self.v_reg[x] != self.v_reg[y] {
                self.pc = self.pc + 2;
            }
            proof {
                assert(spec_execute(old(self)@, op, 0u8) == Ok::<EmuView, Fault>(self@));
            }
            Ok(())
        } else if d1 == 0xA {
            // I = NNN
            self.i_reg = nnn;
            proof {
                assert(spec_execute(old(self)@, op, 0u8) == Ok::<EmuView, Fault>(self@));
            }
            Ok(())
        } else if d1 == 0xB {
            // jump to V0 + NNN
            self.pc = self.v_reg[0] as u16 + nnn;
            proof {
                assert(spec_execute(old(self)@, op, 0u8) == Ok::<EmuView, Fault>(self@));
            }
            Ok(())
        } else if d1 == 0xC {
            // VX = random byte & NN
            let b = random_byte();
            self.v_reg[x] = b & nn;
            proof {
                assert(spec_execute(old(self)@, op, b) == Ok::<EmuView, Fault>(self@));
            }
            Ok(())
        } else if d1 == 0xD {
            // draw sprite
            match self.op_draw(x, y, d4 as usize) {
                Ok(()) => {
                    proof {
                        assert(spec_execute(old(self)@, op, 0u8) == Ok::<EmuView, Fault>(self@));
                    }
                    Ok(())
                },
                Err(e) => {
                    proof {
                        assert(forall|b: u8|
                            spec_execute(old(self)@, op, b) == Err::<EmuView, Fault>(e));
                    }
                    Err(e)
                },
            }
        } else if d1 == 0xE && d3 == 0x9 && d4 == 0xE {
            // skip if key VX pressed
            let vx = self.v_reg[x];
            if vx as usize >= NUM_KEYS {
                proof {
                    assert(forall|b: u8|
                        spec_execute(old(self)@, op, b) == Err::<EmuView, Fault>(
                            Fault::OutOfBounds,
                        ));
                }
                return Err(Fault::OutOfBounds);
            }
            if self.keys[vx as usize] {
                self.pc = self.pc + 2;
            }
            proof {
                assert(spec_execute(old(self)@, op, 0u8) == Ok::<EmuView, Fault>(self@));
            }
            Ok(())
        } else if d1 == 0xE && d3 == 0xA && d4 == 0x1 {
            // skip if key VX not pressed
            let vx = self.v_reg[x];
            if vx as usize >= NUM_KEYS {
                proof {
                    assert(forall|b: u8|
                        spec_execute(old(self)@, op, b) == Err::<EmuView, Fault>(
                            Fault::OutOfBounds,
                        ));
                }
                return Err(Fault::OutOfBounds);
            }
            if !self.keys[vx as usize] {
                self.pc = self.pc + 2;
            }
            proof {
                assert(spec_execute(old(self)@, op, 0u8) == Ok::<EmuView, Fault>(self@));
            }
            Ok(())
        } else if d1 == 0xF && d3 == 0x0 && d4 == 0x7 {
            // VX = delay timer
            self.v_reg[x] = self.dt;
            proof {
                assert(spec_execute(old(self)@, op, 0u8) == Ok::<EmuView, Fault>(self@));
            }
            Ok(())
        } else if d1 == 0xF && d3 == 0x0 && d4 == 0xA {
            // wait for key: lowest pressed key into VX, or rewind to re-fetch
            let mut j: usize = 0;
            while j < NUM_KEYS && !self.keys[j]
                invariant
                    old(self).wf(),
                    self@ == old(self)@,
                    j <= NUM_KEYS,
                    forall|t: int| 0 <= t < j ==> !self.keys@[t],
                decreases NUM_KEYS - j,
            {
                j = j + 1;
            }
            proof {
                crate::semantics::lemma_first_pressed(old(self)@.keys, j as int);
            }
            if j < NUM_KEYS {
                self.v_reg[x] = j as u8;
            } else {
                self.pc = self.pc - 2;
            }
            proof {
                assert(spec_execute(old(self)@, op, 0u8) == Ok::<EmuView, Fault>(self@));
            }
            Ok(())
        } else if d1 == 0xF && d3 == 0x1 && d4 == 0x5 {
            // delay timer = VX
            self.dt = self.v_reg[x];
            proof {
                assert(spec_execute(old(self)@, op, 0u8) == Ok::<EmuView, Fault>(self@));
            }
            Ok(())
        } else if d1 == 0xF && d3 == 0x1 && d4 == 0x8 {
            // sound timer = VX
            self.st = self.v_reg[x];
            proof {
                assert(spec_execute(old(self)@, op, 0u8) == Ok::<EmuView, Fault>(self@));
            }
            Ok(())
        } else if d1 == 0xF && d3 == 0x1 && d4 == 0xE {
            // I += VX, wrapping
            let sum = self.i_reg as u32 + self.v_reg[x] as u32;
            self.i_reg = if sum > 0xFFFF {
                (sum - 0x10000) as u16
            } else {
                sum as u16
            };
            proof {
                assert(spec_execute(old(self)@, op, 0u8) == Ok::<EmuView, Fault>(self@));
            }
            Ok(())
        } else if d1 == 0xF && d3 == 0x2 && d4 == 0x9 {
            // I = font glyph base address of VX
            self.i_reg = self.v_reg[x] as u16 * 5;
            proof {
                assert(spec_execute(old(self)@, op, 0u8) == Ok::<EmuView, Fault>(self@));
            }
            Ok(())
        } else if d1 == 0xF && d3 == 0x3 && d4 == 0x3 {
            // binary-coded decimal of VX into memory[I..I+3]
            if self.i_reg as usize + 3 > RAM_SIZE {
                proof {
                    assert(forall|b: u8|
                        spec_execute(old(self)@, op, b) == Err::<EmuView, Fault>(
                            Fault::OutOfBounds,
                        ));
                }
                return Err(Fault::OutOfBounds);
            }
            let i = self.i_reg as usize;
            let vx = self.v_reg[x];
            self.ram[i] = vx / 100;
            self.ram[i + 1] = (vx / 10) % 10;
            self.ram[i + 2] = vx % 10;
            proof {
                assert(spec_execute(old(self)@, op, 0u8) == Ok::<EmuView, Fault>(self@));
            }
            Ok(())
        } else if d1 == 0xF && d3 == 0x5 && d4 == 0x5 {
            // store V0..=VX into memory[I..]
            if self.i_reg as usize + x + 1 > RAM_SIZE {
                proof {
                    assert(forall|b: u8|
                        spec_execute(old(self)@, op, b) == Err::<EmuView, Fault>(
                            Fault::OutOfBounds,
                        ));
                }
                return Err(Fault::OutOfBounds);
            }
            let i = self.i_reg as usize;
            let mut k: usize = 0;
            while k <= x
                invariant
                    old(self).wf(),
                    x < NUM_REGS,
                    k <= x + 1,
                    i == old(self)@.i_reg as usize,
                    i + x + 1 <= RAM_SIZE,
                    self.ram@.len() == RAM_SIZE,
                    forall|j: int| i <= j < i + k ==> self.ram@[j] == old(self)@.v_reg[j - i],
                    forall|j: int|
                        0 <= j < RAM_SIZE && !(i <= j < i + k) ==> self.ram@[j] == old(
                            self,
                        )@.ram[j],
                    self.pc == old(self)@.pc,
                    self.screen@ == old(self)@.screen,
                    self.v_reg@ == old(self)@.v_reg,
                    self.i_reg == old(self)@.i_reg,
                    self.sp == old(self)@.sp,
                    self.stack@ == old(self)@.stack,
                    self.keys@ == old(self)@.keys,
                    self.dt == old(self)@.dt,
                    self.st == old(self)@.st,
                decreases x + 1 - k,
            {
                self.ram[i + k] = self.v_reg[k];
                k = k + 1;
            }
            proof {
                assert(self@.ram =~= Seq::new(
                    RAM_SIZE as nat,
                    |j: int|
                        if i <= j <= i + x {
                            old(self)@.v_reg[j - i]
                        } else {
                            old(self)@.ram[j]
                        },
                ));
                assert(spec_execute(old(self)@, op, 0u8) == Ok::<EmuView, Fault>(self@));
            }
            Ok(())
        } else if d1 == 0xF && d3 == 0x6 && d4 == 0x5 {
            // load memory[I..] into V0..=VX
            if self.i_reg as usize + x + 1 > RAM_SIZE {
                proof {
                    assert(forall|b: u8|
                        spec_execute(old(self)@, op, b) == Err::<EmuView, Fault>(
                            Fault::OutOfBounds,
                        ));
                }
                return Err(Fault::OutOfBounds);
            }
            let i = self.i_reg as usize;
            let mut k: usize = 0;
            while k <= x
                invariant
                    old(self).wf(),
                    x < NUM_REGS,
                    k <= x + 1,
                    i == old(self)@.i_reg as usize,
                    i + x + 1 <= RAM_SIZE,
                    self.v_reg@.len() == NUM_REGS,
                    forall|j: int| 0 <= j < k ==> self.v_reg@[j] == old(self)@.ram[i + j],
                    forall|j: int|
                        k <= j < NUM_REGS ==> self.v_reg@[j] == old(self)@.v_reg[j],
                    self.pc == old(self)@.pc,
                    self.ram@ == old(self)@.ram,
                    self.screen@ == old(self)@.screen,
                    self.i_reg == old(self)@.i_reg,
                    self.sp == old(self)@.sp,
                    self.stack@ == old(self)@.stack,
                    self.keys@ == old(self)@.keys,
                    self.dt == old(self)@.dt,
                    self.st == old(self)@.st,
                decreases x + 1 - k,
            {
                self.v_reg[k] = self.ram[i + k];
                k = k + 1;
            }
            proof {
                assert(self@.v_reg =~= Seq::new(
                    NUM_REGS as nat,
                    |j: int|
                        if 0 <= j <= x {
                            old(self)@.ram[i + j]
                        } else {
                            old(self)@.v_reg[j]
                        },
                ));
                assert(spec_execute(old(self)@, op, 0u8) == Ok::<EmuView, Fault>(self@));
            }
            Ok(())
        } else {
            // unrecognized pattern: fatal
            proof {
                assert(forall|b: u8|
                    spec_execute(old(self)@, op, b) == Err::<EmuView, Fault>(
                        Fault::UnimplementedOpcode(op),
                    ));
            }
            Err(Fault::UnimplementedOpcode(op))
        }
    }

    /// One fetch-decode-execute cycle, exactly as [`spec_tick`] describes it:
    /// the result either is the unique successor state (for the drawn random
    /// byte, if the instruction draws one), or reports the fault, in which
    /// case the machine is left unchanged.
    pub fn tick(&mut self) -> (r: Result<(), Fault>)
        requires
            old(self).wf(),
        ensures
            final(self).wf(),
            match r {
                Ok(()) => exists|b: u8|
                    spec_tick(old(self)@, b) == Ok::<EmuView, Fault>(final(self)@),
                Err(e) => final(self)@ == old(self)@ && forall|b: u8|
                    spec_tick(old(self)@, b) == Err::<EmuView, Fault>(e),
            },
    {
        let op = match self.fetch() {
            Ok(op) => op,
            Err(e) => {
                proof {
                    assert(forall|b: u8| spec_tick(old(self)@, b) == Err::<EmuView, Fault>(e));
                }
                return Err(e);
            },
        };
        let ghost mid = self@;
        match self.execute(op) {
            Ok(()) => {
                proof {
                    let b = choose|b: u8| spec_execute(mid, op, b) == Ok::<EmuView, Fault>(self@);
                    assert(mid =~= (EmuView { pc: (old(self)@.pc + 2) as u16, ..old(self)@ }));
                    assert(spec_tick(old(self)@, b) == Ok::<EmuView, Fault>(self@));
                }
                Ok(())
            },
            Err(e) => {
                self.pc = self.pc - 2;
                proof {
                    assert(self@ =~= old(self)@);
                    assert forall|b: u8| spec_tick(old(self)@, b) == Err::<EmuView, Fault>(e) by {
                        assert(mid =~= (EmuView { pc: (old(self)@.pc + 2) as u16, ..old(self)@ }));
                        assert(spec_execute(mid, op, b) == Err::<EmuView, Fault>(e));
                    }
                }
                Err(e)
            },
        }
    }
}

} // verus!
