//! Laws of the instruction set: properties that hold of the transition
//! functions for every machine state, stated and proved once and for all.

use vstd::prelude::*;

verus! {

use crate::semantics::Fault;
use crate::semantics::addr_nnn;
use crate::semantics::draw_collision;
use crate::semantics::draw_screen;
use crate::semantics::first_pressed;
use crate::semantics::imm_nn;
use crate::semantics::nib1;
use crate::semantics::nib2;
use crate::semantics::nib3;
use crate::semantics::nib4;
use crate::semantics::pix_index;
use crate::semantics::row_bit;
use crate::semantics::spec_execute;
use crate::semantics::spec_tick;
use crate::semantics::word_at;
use crate::state::EmuView;
use crate::state::NUM_KEYS;
use crate::state::RAM_SIZE;
use crate::state::SCREEN_HEIGHT;
use crate::state::SCREEN_WIDTH;
use crate::state::STACK_SIZE;
use crate::state::glyph_sprite;
use crate::state::initial_view;

proof fn lemma_wrap256(v: int)
    requires
        0 <= v < 512,
    ensures
        v % 256 == if v < 256 {
            v
        } else {
            v - 256
        },
{
    if v < 256 {
        vstd::arithmetic::div_mod::lemma_small_mod(v as nat, 256nat);
    } else {
        vstd::arithmetic::div_mod::lemma_mod_sub_multiples_vanish(v, 256);
        vstd::arithmetic::div_mod::lemma_small_mod((v - 256) as nat, 256nat);
    }
}

/// In the just-constructed machine the font glyph for hexadecimal digit `c`
/// occupies the five bytes starting at memory address `c * 5`. Construction
/// and reset both establish exactly this state.
pub proof fn lemma_font_glyph(c: int)
    requires
        0 <= c < 16,
    ensures
        initial_view().ram.subrange(5 * c, 5 * c + 5) == glyph_sprite(c),
{
    let r = initial_view().ram;
    if c == 0x0 {
        assert(r.subrange(5 * c, 5 * c + 5) =~= glyph_sprite(c));
    } else if c == 0x1 {
        assert(r.subrange(5 * c, 5 * c + 5) =~= glyph_sprite(c));
    } else if c == 0x2 {
        assert(r.subrange(5 * c, 5 * c + 5) =~= glyph_sprite(c));
    } else if c == 0x3 {
        assert(r.subrange(5 * c, 5 * c + 5) =~= glyph_sprite(c));
    } else if c == 0x4 {
        assert(r.subrange(5 * c, 5 * c + 5) =~= glyph_sprite(c));
    } else if c == 0x5 {
        assert(r.subrange(5 * c, 5 * c + 5) =~= glyph_sprite(c));
    } else if c == 0x6 {
        assert(r.subrange(5 * c, 5 * c + 5) =~= glyph_sprite(c));
    } else if c == 0x7 {
        assert(r.subrange(5 * c, 5 * c + 5) =~= glyph_sprite(c));
    } else if c == 0x8 {
        assert(r.subrange(5 * c, 5 * c + 5) =~= glyph_sprite(c));
    } else if c == 0x9 {
        assert(r.subrange(5 * c, 5 * c + 5) =~= glyph_sprite(c));
    } else if c == 0xA {
        assert(r.subrange(5 * c, 5 * c + 5) =~= glyph_sprite(c));
    } else if c == 0xB {
        assert(r.subrange(5 * c, 5 * c + 5) =~= glyph_sprite(c));
    } else if c == 0xC {
        assert(r.subrange(5 * c, 5 * c + 5) =~= glyph_sprite(c));
    } else if c == 0xD {
        assert(r.subrange(5 * c, 5 * c + 5) =~= glyph_sprite(c));
    } else if c == 0xE {
        assert(r.subrange(5 * c, 5 * c + 5) =~= glyph_sprite(c));
    } else {
        assert(r.subrange(5 * c, 5 * c + 5) =~= glyph_sprite(c));
    }
}

/// The font layout as a whole: every glyph stands at its address in the
/// initial state.
pub proof fn lemma_font_layout()
    ensures
        forall|c: int|
            0 <= c < 16 ==> #[trigger] initial_view().ram.subrange(5 * c, 5 * c + 5)
                == glyph_sprite(c),
{
    assert forall|c: int| 0 <= c < 16 implies #[trigger] initial_view().ram.subrange(
        5 * c,
        5 * c + 5,
    ) == glyph_sprite(c) by {
        lemma_font_glyph(c);
    }
}

/// Every successful cycle preserves well-formedness: the fixed sizes of
/// memory, screen, registers, stack and keys, and the stack-pointer bound.
pub proof fn lemma_tick_preserves_wf(s: EmuView, rnd: u8)
    requires
        s.wf(),
    ensures
        spec_tick(s, rnd) matches Ok(v) ==> v.wf(),
{
}

/// The add-immediate instruction 7XNN wraps modulo 256 and, unless the flag
/// register is itself the target, never touches the flag register; no other
/// part of the state changes.
pub proof fn lemma_add_imm_wraps(s: EmuView, op: u16, rnd: u8)
    requires
        s.wf(),
        nib1(op) == 0x7,
    ensures
        spec_execute(s, op, rnd) matches Ok(v) && {
            let x = nib2(op) as int;
            &&& v.v_reg[x] == (s.v_reg[x] + imm_nn(op)) % 256
            &&& forall|j: int| 0 <= j < 16 && j != x ==> v.v_reg[j] == s.v_reg[j]
            &&& x != 0xF ==> v.v_reg[0xF] == s.v_reg[0xF]
            &&& v == (EmuView { v_reg: v.v_reg, ..s })
        },
{
    let x = nib2(op) as int;
    lemma_wrap256(s.v_reg[x] + imm_nn(op));
}

/// The add-register instruction 8XY4 wraps modulo 256 and reports a carry in
/// the flag register: 1 exactly when the true sum exceeds 255, else 0. The
/// flag is written after the sum, so it wins when X is the flag register.
pub proof fn lemma_add_reg_carry(s: EmuView, op: u16, rnd: u8)
    requires
        s.wf(),
        nib1(op) == 0x8,
        nib4(op) == 0x4,
    ensures
        spec_execute(s, op, rnd) matches Ok(v) && {
            let x = nib2(op) as int;
            let y = nib3(op) as int;
            &&& v.v_reg[0xF] == if s.v_reg[x] + s.v_reg[y] > 255 {
                1u8
            } else {
                0u8
            }
            &&& x != 0xF ==> v.v_reg[x] == (s.v_reg[x] + s.v_reg[y]) % 256
            &&& forall|j: int| 0 <= j < 16 && j != x && j != 0xF ==> v.v_reg[j] == s.v_reg[j]
            &&& v == (EmuView { v_reg: v.v_reg, ..s })
        },
{
    let x = nib2(op) as int;
    let y = nib3(op) as int;
    lemma_wrap256(s.v_reg[x] + s.v_reg[y]);
}

/// The subtract instruction 8XY5 wraps modulo 256 and reports a borrow in
/// the flag register: 0 exactly when VY exceeds VX (a borrow occurred), else
/// 1.
pub proof fn lemma_sub_reg_borrow(s: EmuView, op: u16, rnd: u8)
    requires
        s.wf(),
        nib1(op) == 0x8,
        nib4(op) == 0x5,
    ensures
        spec_execute(s, op, rnd) matches Ok(v) && {
            let x = nib2(op) as int;
            let y = nib3(op) as int;
            &&& v.v_reg[0xF] == if s.v_reg[x] < s.v_reg[y] {
                0u8
            } else {
                1u8
            }
            &&& x != 0xF ==> v.v_reg[x] == (s.v_reg[x] - s.v_reg[y] + 256) % 256
            &&& forall|j: int| 0 <= j < 16 && j != x && j != 0xF ==> v.v_reg[j] == s.v_reg[j]
            &&& v == (EmuView { v_reg: v.v_reg, ..s })
        },
{
    let x = nib2(op) as int;
    let y = nib3(op) as int;
    lemma_wrap256(s.v_reg[x] - s.v_reg[y] + 256);
}

/// The reversed subtract instruction 8XY7 computes VY - VX with the same
/// borrow convention as 8XY5: flag 0 exactly when VX exceeds VY.
pub proof fn lemma_rsub_reg_borrow(s: EmuView, op: u16, rnd: u8)
    requires
        s.wf(),
        nib1(op) == 0x8,
        nib4(op) == 0x7,
    ensures
        spec_execute(s, op, rnd) matches Ok(v) && {
            let x = nib2(op) as int;
            let y = nib3(op) as int;
            &&& v.v_reg[0xF] == if s.v_reg[y] < s.v_reg[x] {
                0u8
            } else {
                1u8
            }
            &&& x != 0xF ==> v.v_reg[x] == (s.v_reg[y] - s.v_reg[x] + 256) % 256
            &&& forall|j: int| 0 <= j < 16 && j != x && j != 0xF ==> v.v_reg[j] == s.v_reg[j]
            &&& v == (EmuView { v_reg: v.v_reg, ..s })
        },
{
    let x = nib2(op) as int;
    let y = nib3(op) as int;
    lemma_wrap256(s.v_reg[y] - s.v_reg[x] + 256);
}

/// The right-shift instruction 8XY6 captures the bit shifted out — the least
/// significant bit of VX before the shift — in the flag register, whatever
/// the shifted result is.
pub proof fn lemma_shr_captures_bit(s: EmuView, op: u16, rnd: u8)
    requires
        s.wf(),
        nib1(op) == 0x8,
        nib4(op) == 0x6,
    ensures
        spec_execute(s, op, rnd) matches Ok(v) && {
            let x = nib2(op) as int;
            &&& v.v_reg[0xF] == s.v_reg[x] % 2
            &&& x != 0xF ==> v.v_reg[x] == s.v_reg[x] / 2
            &&& forall|j: int| 0 <= j < 16 && j != x && j != 0xF ==> v.v_reg[j] == s.v_reg[j]
            &&& v == (EmuView { v_reg: v.v_reg, ..s })
        },
{
}

/// The left-shift instruction 8XYE captures the bit shifted out — the most
/// significant bit of VX before the shift — in the flag register, whatever
/// the shifted result is.
pub proof fn lemma_shl_captures_bit(s: EmuView, op: u16, rnd: u8)
    requires
        s.wf(),
        nib1(op) == 0x8,
        nib4(op) == 0xE,
    ensures
        spec_execute(s, op, rnd) matches Ok(v) && {
            let x = nib2(op) as int;
            &&& v.v_reg[0xF] == s.v_reg[x] / 128
            &&& x != 0xF ==> v.v_reg[x] == (2 * s.v_reg[x]) % 256
            &&& forall|j: int| 0 <= j < 16 && j != x && j != 0xF ==> v.v_reg[j] == s.v_reg[j]
            &&& v == (EmuView { v_reg: v.v_reg, ..s })
        },
{
    let x = nib2(op) as int;
    lemma_wrap256(2 * s.v_reg[x]);
}

/// Drawing the same sprite twice at the same origin, starting from an
/// all-dark screen: the first draw collides with nothing, the second draw
/// reports a collision exactly when the sprite has any set bit (every pixel
/// it lit is turned off again), and the screen returns to all-dark.
pub proof fn lemma_draw_twice_restores(
    screen: Seq<bool>,
    ram: Seq<u8>,
    i: int,
    n: int,
    xc: int,
    yc: int,
)
    requires
        screen.len() == SCREEN_WIDTH * SCREEN_HEIGHT,
        forall|idx: int| 0 <= idx < screen.len() ==> !screen[idx],
        0 <= xc,
        0 <= yc,
    ensures
        ({
            let once = draw_screen(screen, ram, i, n, xc, yc);
            let twice = draw_screen(once, ram, i, n, xc, yc);
            &&& !draw_collision(screen, ram, i, n, xc, yc)
            &&& draw_collision(once, ram, i, n, xc, yc) <==> (exists|row: int, col: int|
                0 <= row < n && 0 <= col < 8 && #[trigger] row_bit(ram[i + row], col))
            &&& forall|idx: int| 0 <= idx < twice.len() ==> !twice[idx]
        }),
{
    let once = draw_screen(screen, ram, i, n, xc, yc);
    let twice = draw_screen(once, ram, i, n, xc, yc);
    let w = SCREEN_WIDTH as int;
    let h = SCREEN_HEIGHT as int;
    assert forall|row: int, col: int| 0 <= row < n && 0 <= col < 8 implies 0 <= #[trigger] pix_index(
        xc,
        yc,
        row,
        col,
    ) < screen.len() by {
        vstd::arithmetic::div_mod::lemma_mod_bound(xc + col, w);
        vstd::arithmetic::div_mod::lemma_mod_bound(yc + row, h);
    }
    if draw_collision(screen, ram, i, n, xc, yc) {
        let (row, col) = choose|row: int, col: int|
            0 <= row < n && 0 <= col < 8 && row_bit(ram[i + row], col) && screen[pix_index(
                xc,
                yc,
                row,
                col,
            )];
        assert(!screen[pix_index(xc, yc, row, col)]);
    }
    if draw_collision(once, ram, i, n, xc, yc) {
        let (row, col) = choose|row: int, col: int|
            0 <= row < n && 0 <= col < 8 && row_bit(ram[i + row], col) && once[pix_index(
                xc,
                yc,
                row,
                col,
            )];
        assert(exists|row: int, col: int|
            0 <= row < n && 0 <= col < 8 && #[trigger] row_bit(ram[i + row], col));
    }
    if exists|row: int, col: int| 0 <= row < n && 0 <= col < 8 && #[trigger] row_bit(
        ram[i + row],
        col,
    ) {
        let (row, col) = choose|row: int, col: int|
            0 <= row < n && 0 <= col < 8 && #[trigger] row_bit(ram[i + row], col);
        let t = pix_index(xc, yc, row, col);
        assert(crate::semantics::draw_hits(ram, i, n, xc, yc, t));
        assert(once[t]);
        assert(draw_collision(once, ram, i, n, xc, yc));
    }
}

/// Stack round trip: a call instruction 2NNN followed by the return
/// instruction 00EE at the call target brings the program counter to the
/// instruction following the call, with the stack pointer, memory and
/// registers as they were.
pub proof fn lemma_call_return_round_trip(s: EmuView, rnd1: u8, rnd2: u8)
    requires
        s.wf(),
        s.pc + 1 < RAM_SIZE,
        nib1(word_at(s, s.pc as int)) == 0x2,
        s.sp < STACK_SIZE,
        addr_nnn(word_at(s, s.pc as int)) + 1 < RAM_SIZE,
        word_at(s, addr_nnn(word_at(s, s.pc as int)) as int) == 0x00EE,
    ensures
        spec_tick(s, rnd1) matches Ok(s1) && {
            let nnn = addr_nnn(word_at(s, s.pc as int));
            &&& s1.pc == nnn
            &&& s1.sp == s.sp + 1
            &&& s1.stack[s.sp as int] == s.pc + 2
            &&& spec_tick(s1, rnd2) matches Ok(s2) && {
                &&& s2.pc == s.pc + 2
                &&& s2.sp == s.sp
                &&& s2.ram == s.ram
                &&& s2.v_reg == s.v_reg
                &&& s2.screen == s.screen
            }
        },
{
    let op1 = word_at(s, s.pc as int);
    let nnn = addr_nnn(op1);
    assert(spec_tick(s, rnd1) matches Ok(s1) && s1.pc == nnn && s1.sp == s.sp + 1
        && s1.stack[s.sp as int] == s.pc + 2 && s1.ram == s.ram);
}

/// The wait-for-key instruction FX0A: while no key is pressed a cycle leaves
/// the whole machine state unchanged, so repeated cycles re-fetch the same
/// instruction; as soon as some key is pressed, a cycle advances past the
/// instruction and stores the lowest pressed key index in VX.
pub proof fn lemma_wait_key(s: EmuView, rnd: u8)
    requires
        s.wf(),
        s.pc + 1 < RAM_SIZE,
        nib1(word_at(s, s.pc as int)) == 0xF,
        nib3(word_at(s, s.pc as int)) == 0x0,
        nib4(word_at(s, s.pc as int)) == 0xA,
    ensures
        (forall|k: int| 0 <= k < NUM_KEYS ==> !s.keys[k]) ==> spec_tick(s, rnd) == Ok::<
            EmuView,
            Fault,
        >(s),
        (exists|k: int| 0 <= k < NUM_KEYS && s.keys[k]) ==> (spec_tick(s, rnd) matches Ok(s1) && {
            let lo = first_pressed(s.keys, 0);
            &&& 0 <= lo < NUM_KEYS
            &&& s.keys[lo]
            &&& forall|k: int| 0 <= k < lo ==> !s.keys[k]
            &&& s1 == (EmuView {
                pc: (s.pc + 2) as u16,
                v_reg: s.v_reg.update(nib2(word_at(s, s.pc as int)) as int, lo as u8),
                ..s
            })
        }),
{
    crate::semantics::lemma_first_pressed_props(s.keys);
    let lo = first_pressed(s.keys, 0);
    if forall|k: int| 0 <= k < NUM_KEYS ==> !s.keys[k] {
        if lo < NUM_KEYS {
            assert(!s.keys[lo]);
        }
        assert(spec_tick(s, rnd) matches Ok(s1) && s1 =~= s);
    }
    if exists|k: int| 0 <= k < NUM_KEYS && s.keys[k] {
        let k0 = choose|k: int| 0 <= k < NUM_KEYS && s.keys[k];
        if lo == NUM_KEYS {
            assert(!s.keys[k0]);
        }
    }
}

} // verus!
