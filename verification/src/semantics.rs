//! The instruction semantics: a mathematical transition function over
//! [`EmuView`] that says exactly what one fetch-decode-execute cycle does,
//! together with the helper functions it is built from.

use vstd::prelude::*;

verus! {

use crate::state::EmuView;
use crate::state::NUM_KEYS;
use crate::state::RAM_SIZE;
use crate::state::SCREEN_HEIGHT;
use crate::state::SCREEN_WIDTH;
use crate::state::STACK_SIZE;

/// The two fatal conditions an instruction cycle can signal. The interpreter
/// converts both into a recoverable result that leaves the machine unchanged.
#[derive(Clone, Copy, Debug, PartialEq, Eq, Structural)]
pub enum Fault {
    /// No instruction pattern matches the fetched word; carries the word for
    /// diagnostics.
    UnimplementedOpcode(u16),
    /// Address arithmetic ran past the fixed-size backing storage: a fetch or
    /// memory access past the end of memory, a push on a full stack, a pop on
    /// an empty stack, or a key index past the key range.
    OutOfBounds,
}

/// Most significant nibble of an instruction word.
pub open spec fn nib1(op: u16) -> u16 {
    op / 0x1000
}

/// Second nibble: the X register field.
pub open spec fn nib2(op: u16) -> u16 {
    (op / 0x100) % 0x10
}

/// Third nibble: the Y register field.
pub open spec fn nib3(op: u16) -> u16 {
    (op / 0x10) % 0x10
}

/// Least significant nibble.
pub open spec fn nib4(op: u16) -> u16 {
    op % 0x10
}

/// The 12-bit address field NNN.
pub open spec fn addr_nnn(op: u16) -> u16 {
    op % 0x1000
}

/// The 8-bit immediate field NN.
pub open spec fn imm_nn(op: u16) -> u8 {
    (op % 0x100) as u8
}

/// The weight of sprite column `col` in a row byte: the most significant bit
/// is the leftmost of the 8 pixels.
pub open spec fn col_weight(col: int) -> u8 {
    if col == 0 {
        128
    } else if col == 1 {
        64
    } else if col == 2 {
        32
    } else if col == 3 {
        16
    } else if col == 4 {
        8
    } else if col == 5 {
        4
    } else if col == 6 {
        2
    } else {
        1
    }
}

/// Whether sprite row byte `b` has the pixel for column `col` (0 = leftmost) set.
pub open spec fn row_bit(b: u8, col: int) -> bool {
    (b / col_weight(col)) % 2 == 1
}

/// The framebuffer index targeted by sprite cell (`row`, `col`) of a sprite
/// drawn at origin (`xc`, `yc`): both coordinates wrap around the screen edges.
pub open spec fn pix_index(xc: int, yc: int, row: int, col: int) -> int {
    (xc + col) % (SCREEN_WIDTH as int) + SCREEN_WIDTH * ((yc + row) % (SCREEN_HEIGHT as int))
}

/// Whether the draw of the `n`-row sprite at memory address `i`, placed at
/// origin (`xc`, `yc`), touches the framebuffer index `idx`.
pub open spec fn draw_hits(ram: Seq<u8>, i: int, n: int, xc: int, yc: int, idx: int) -> bool {
    exists|row: int, col: int|
        0 <= row < n && 0 <= col < 8 && row_bit(ram[i + row], col) && pix_index(
            xc,
            yc,
            row,
            col,
        ) == idx
}

/// The framebuffer after the draw: every touched pixel is toggled, every
/// other pixel keeps its value.
pub open spec fn draw_screen(
    screen: Seq<bool>,
    ram: Seq<u8>,
    i: int,
    n: int,
    xc: int,
    yc: int,
) -> Seq<bool> {
    Seq::new(screen.len(), |idx: int| screen[idx] != draw_hits(ram, i, n, xc, yc, idx))
}

/// Whether the draw turns some previously lit pixel off: true exactly when a
/// set sprite bit lands on a pixel that was lit before the instruction.
pub open spec fn draw_collision(
    screen: Seq<bool>,
    ram: Seq<u8>,
    i: int,
    n: int,
    xc: int,
    yc: int,
) -> bool {
    exists|row: int, col: int|
        0 <= row < n && 0 <= col < 8 && row_bit(ram[i + row], col) && screen[pix_index(
            xc,
            yc,
            row,
            col,
        )]
}

/// Whether some sprite cell strictly before (`row`, `col`) in drawing order
/// (rows outermost, columns left to right) is set and targets index `idx`.
/// This is the part of [`draw_hits`] the drawing loop has already applied.
pub(crate) open spec fn draw_hits_upto(
    ram: Seq<u8>,
    i: int,
    xc: int,
    yc: int,
    row: int,
    col: int,
    idx: int,
) -> bool {
    exists|r: int, c: int|
        0 <= r && 0 <= c < 8 && (r < row || (r == row && c < col)) && row_bit(ram[i + r], c)
            && pix_index(xc, yc, r, c) == idx
}

/// Whether some sprite cell strictly before (`row`, `col`) in drawing order is
/// set and targets a pixel lit in `screen`: the collision flag the drawing
/// loop has accumulated so far.
pub(crate) open spec fn draw_collision_upto(
    screen: Seq<bool>,
    ram: Seq<u8>,
    i: int,
    xc: int,
    yc: int,
    row: int,
    col: int,
) -> bool {
    exists|r: int, c: int|
        0 <= r && 0 <= c < 8 && (r < row || (r == row && c < col)) && row_bit(ram[i + r], c)
            && screen[pix_index(xc, yc, r, c)]
}

/// Two offsets less than the modulus apart land on distinct residues.
proof fn lemma_mod_add_small_distinct(a: int, c1: int, c2: int, m: int)
    requires
        0 <= a,
        0 <= c1 < c2,
        c2 - c1 < m,
        0 < m,
    ensures
        (a + c1) % m != (a + c2) % m,
{
    let u = a + c1;
    let v = a + c2;
    vstd::arithmetic::div_mod::lemma_fundamental_div_mod(u, m);
    vstd::arithmetic::div_mod::lemma_fundamental_div_mod(v, m);
    let q1 = u / m;
    let q2 = v / m;
    if u % m == v % m {
        assert(false) by (nonlinear_arith)
            requires
                u == m * q1 + (u % m),
                v == m * q2 + (v % m),
                u % m == v % m,
                v - u == c2 - c1,
                0 < c2 - c1 < m,
        ;
    }
}

/// Distinct cells of a sprite of at most 16 rows target distinct pixels: the
/// wrapped x-coordinates of two distinct columns differ, as do the wrapped
/// y-coordinates of two distinct rows, and a framebuffer index determines
/// both coordinates.
pub(crate) proof fn lemma_pix_index_injective(
    xc: int,
    yc: int,
    r1: int,
    c1: int,
    r2: int,
    c2: int,
)
    requires
        0 <= xc,
        0 <= yc,
        0 <= r1 < 16,
        0 <= c1 < 8,
        0 <= r2 < 16,
        0 <= c2 < 8,
        !(r1 == r2 && c1 == c2),
    ensures
        pix_index(xc, yc, r1, c1) != pix_index(xc, yc, r2, c2),
{
    let w = SCREEN_WIDTH as int;
    let h = SCREEN_HEIGHT as int;
    let x1 = (xc + c1) % w;
    let y1 = (yc + r1) % h;
    let x2 = (xc + c2) % w;
    let y2 = (yc + r2) % h;
    vstd::arithmetic::div_mod::lemma_mod_bound(xc + c1, w);
    vstd::arithmetic::div_mod::lemma_mod_bound(xc + c2, w);
    vstd::arithmetic::div_mod::lemma_mod_bound(yc + r1, h);
    vstd::arithmetic::div_mod::lemma_mod_bound(yc + r2, h);
    if pix_index(xc, yc, r1, c1) == pix_index(xc, yc, r2, c2) {
        assert(x1 + w * y1 == x2 + w * y2);
        assert(x1 == x2 && y1 == y2);
        if c1 < c2 {
            lemma_mod_add_small_distinct(xc, c1, c2, w);
        } else if c2 < c1 {
            lemma_mod_add_small_distinct(xc, c2, c1, w);
        } else if r1 < r2 {
            lemma_mod_add_small_distinct(yc, r1, r2, h);
        } else {
            lemma_mod_add_small_distinct(yc, r2, r1, h);
        }
    }
}

/// The pixel a set cell is about to toggle has not been toggled by any
/// earlier cell of the same draw.
pub(crate) proof fn lemma_target_fresh(
    ram: Seq<u8>,
    i: int,
    xc: int,
    yc: int,
    row: int,
    col: int,
)
    requires
        0 <= xc,
        0 <= yc,
        0 <= row < 16,
        0 <= col < 8,
    ensures
        !draw_hits_upto(ram, i, xc, yc, row, col, pix_index(xc, yc, row, col)),
{
    let t = pix_index(xc, yc, row, col);
    if draw_hits_upto(ram, i, xc, yc, row, col, t) {
        let (r, c) = choose|r: int, c: int|
            0 <= r && 0 <= c < 8 && (r < row || (r == row && c < col)) && row_bit(ram[i + r], c)
                && pix_index(xc, yc, r, c) == t;
        lemma_pix_index_injective(xc, yc, r, c, row, col);
    }
}

/// Stepping the drawing loop past a cell that either is not set or does not
/// target `idx` leaves "already applied at `idx`" unchanged.
pub(crate) proof fn lemma_upto_col_other(
    ram: Seq<u8>,
    i: int,
    xc: int,
    yc: int,
    row: int,
    col: int,
    idx: int,
)
    requires
        0 <= col < 8,
        !(row_bit(ram[i + row], col) && pix_index(xc, yc, row, col) == idx),
    ensures
        draw_hits_upto(ram, i, xc, yc, row, col + 1, idx) == draw_hits_upto(
            ram,
            i,
            xc,
            yc,
            row,
            col,
            idx,
        ),
{
    if draw_hits_upto(ram, i, xc, yc, row, col + 1, idx) {
        let (r, c) = choose|r: int, c: int|
            0 <= r && 0 <= c < 8 && (r < row || (r == row && c < col + 1)) && row_bit(
                ram[i + r],
                c,
            ) && pix_index(xc, yc, r, c) == idx;
        assert(!(r == row && c == col));
        assert(draw_hits_upto(ram, i, xc, yc, row, col, idx));
    }
    if draw_hits_upto(ram, i, xc, yc, row, col, idx) {
        let (r, c) = choose|r: int, c: int|
            0 <= r && 0 <= c < 8 && (r < row || (r == row && c < col)) && row_bit(ram[i + r], c)
                && pix_index(xc, yc, r, c) == idx;
        assert(draw_hits_upto(ram, i, xc, yc, row, col + 1, idx));
    }
}

/// Stepping the drawing loop past the end of a row reaches the start of the
/// next row: both describe exactly the cells of rows up to and including
/// `row`.
pub(crate) proof fn lemma_upto_row_rollover(
    ram: Seq<u8>,
    i: int,
    xc: int,
    yc: int,
    row: int,
    idx: int,
)
    ensures
        draw_hits_upto(ram, i, xc, yc, row, 8, idx) == draw_hits_upto(
            ram,
            i,
            xc,
            yc,
            row + 1,
            0,
            idx,
        ),
{
    if draw_hits_upto(ram, i, xc, yc, row, 8, idx) {
        let (r, c) = choose|r: int, c: int|
            0 <= r && 0 <= c < 8 && (r < row || (r == row && c < 8)) && row_bit(ram[i + r], c)
                && pix_index(xc, yc, r, c) == idx;
        assert(r < row + 1);
        assert(draw_hits_upto(ram, i, xc, yc, row + 1, 0, idx));
    }
    if draw_hits_upto(ram, i, xc, yc, row + 1, 0, idx) {
        let (r, c) = choose|r: int, c: int|
            0 <= r && 0 <= c < 8 && (r < row + 1 || (r == row + 1 && c < 0)) && row_bit(
                ram[i + r],
                c,
            ) && pix_index(xc, yc, r, c) == idx;
        assert(r < row || (r == row && c < 8));
        assert(draw_hits_upto(ram, i, xc, yc, row, 8, idx));
    }
}

/// Having applied every cell of the first `n` rows is exactly having applied
/// the whole `n`-row sprite.
pub(crate) proof fn lemma_upto_full(
    ram: Seq<u8>,
    i: int,
    xc: int,
    yc: int,
    n: int,
    idx: int,
)
    ensures
        draw_hits_upto(ram, i, xc, yc, n, 0, idx) == draw_hits(ram, i, n, xc, yc, idx),
{
    if draw_hits_upto(ram, i, xc, yc, n, 0, idx) {
        let (r, c) = choose|r: int, c: int|
            0 <= r && 0 <= c < 8 && (r < n || (r == n && c < 0)) && row_bit(ram[i + r], c)
                && pix_index(xc, yc, r, c) == idx;
        assert(0 <= r < n);
        assert(draw_hits(ram, i, n, xc, yc, idx));
    }
    if draw_hits(ram, i, n, xc, yc, idx) {
        let (r, c) = choose|r: int, c: int|
            0 <= r < n && 0 <= c < 8 && row_bit(ram[i + r], c) && pix_index(xc, yc, r, c) == idx;
        assert(draw_hits_upto(ram, i, xc, yc, n, 0, idx));
    }
}

/// The collision accumulator after stepping past one cell: the old value,
/// plus a hit if the cell is set and its target pixel was lit before the
/// draw.
pub(crate) proof fn lemma_collision_col_step(
    screen: Seq<bool>,
    ram: Seq<u8>,
    i: int,
    xc: int,
    yc: int,
    row: int,
    col: int,
)
    requires
        0 <= row,
        0 <= col < 8,
    ensures
        draw_collision_upto(screen, ram, i, xc, yc, row, col + 1) == (draw_collision_upto(
            screen,
            ram,
            i,
            xc,
            yc,
            row,
            col,
        ) || (row_bit(ram[i + row], col) && screen[pix_index(xc, yc, row, col)])),
{
    if draw_collision_upto(screen, ram, i, xc, yc, row, col + 1) {
        let (r, c) = choose|r: int, c: int|
            0 <= r && 0 <= c < 8 && (r < row || (r == row && c < col + 1)) && row_bit(
                ram[i + r],
                c,
            ) && screen[pix_index(xc, yc, r, c)];
        if r == row && c == col {
        } else {
            assert(draw_collision_upto(screen, ram, i, xc, yc, row, col));
        }
    }
    if draw_collision_upto(screen, ram, i, xc, yc, row, col) {
        let (r, c) = choose|r: int, c: int|
            0 <= r && 0 <= c < 8 && (r < row || (r == row && c < col)) && row_bit(ram[i + r], c)
                && screen[pix_index(xc, yc, r, c)];
        assert(draw_collision_upto(screen, ram, i, xc, yc, row, col + 1));
    }
    if row_bit(ram[i + row], col) && screen[pix_index(xc, yc, row, col)] {
        assert(draw_collision_upto(screen, ram, i, xc, yc, row, col + 1));
    }
}

/// The collision accumulator rolls over from the end of one row to the start
/// of the next.
pub(crate) proof fn lemma_collision_row_rollover(
    screen: Seq<bool>,
    ram: Seq<u8>,
    i: int,
    xc: int,
    yc: int,
    row: int,
)
    ensures
        draw_collision_upto(screen, ram, i, xc, yc, row, 8) == draw_collision_upto(
            screen,
            ram,
            i,
            xc,
            yc,
            row + 1,
            0,
        ),
{
    if draw_collision_upto(screen, ram, i, xc, yc, row, 8) {
        let (r, c) = choose|r: int, c: int|
            0 <= r && 0 <= c < 8 && (r < row || (r == row && c < 8)) && row_bit(ram[i + r], c)
                && screen[pix_index(xc, yc, r, c)];
        assert(r < row + 1);
        assert(draw_collision_upto(screen, ram, i, xc, yc, row + 1, 0));
    }
    if draw_collision_upto(screen, ram, i, xc, yc, row + 1, 0) {
        let (r, c) = choose|r: int, c: int|
            0 <= r && 0 <= c < 8 && (r < row + 1 || (r == row + 1 && c < 0)) && row_bit(
                ram[i + r],
                c,
            ) && screen[pix_index(xc, yc, r, c)];
        assert(r < row || (r == row && c < 8));
        assert(draw_collision_upto(screen, ram, i, xc, yc, row, 8));
    }
}

/// Having accumulated collisions over every cell of the first `n` rows is
/// exactly the collision outcome of the whole `n`-row draw.
pub(crate) proof fn lemma_collision_full(
    screen: Seq<bool>,
    ram: Seq<u8>,
    i: int,
    xc: int,
    yc: int,
    n: int,
)
    ensures
        draw_collision_upto(screen, ram, i, xc, yc, n, 0) == draw_collision(
            screen,
            ram,
            i,
            n,
            xc,
            yc,
        ),
{
    if draw_collision_upto(screen, ram, i, xc, yc, n, 0) {
        let (r, c) = choose|r: int, c: int|
            0 <= r && 0 <= c < 8 && (r < n || (r == n && c < 0)) && row_bit(ram[i + r], c)
                && screen[pix_index(xc, yc, r, c)];
        assert(0 <= r < n);
        assert(draw_collision(screen, ram, i, n, xc, yc));
    }
    if draw_collision(screen, ram, i, n, xc, yc) {
        let (r, c) = choose|r: int, c: int|
            0 <= r < n && 0 <= c < 8 && row_bit(ram[i + r], c) && screen[pix_index(xc, yc, r, c)];
        assert(draw_collision_upto(screen, ram, i, xc, yc, n, 0));
    }
}

/// The lowest pressed key at or above index `k`, or `NUM_KEYS` if none is
/// pressed there.
pub open spec fn first_pressed(keys: Seq<bool>, k: int) -> int
    decreases NUM_KEYS - k,
{
    if k < 0 || k >= NUM_KEYS {
        NUM_KEYS as int
    } else if keys[k] {
        k
    } else {
        first_pressed(keys, k + 1)
    }
}

proof fn lemma_first_pressed_from(keys: Seq<bool>, j: int, k: int)
    requires
        0 <= k <= j <= NUM_KEYS,
        forall|t: int| k <= t < j ==> !keys[t],
        j < NUM_KEYS ==> keys[j],
    ensures
        first_pressed(keys, k) == j,
    decreases j - k,
{
    if k < j {
        lemma_first_pressed_from(keys, j, k + 1);
    }
}

/// The characterization of a linear scan: if every key below `j` is released
/// and `j` is either pressed or the end of the key range, then `j` is the
/// lowest pressed key (or the end marker).
pub proof fn lemma_first_pressed(keys: Seq<bool>, j: int)
    requires
        0 <= j <= NUM_KEYS,
        forall|t: int| 0 <= t < j ==> !keys[t],
        j < NUM_KEYS ==> keys[j],
    ensures
        first_pressed(keys, 0) == j,
{
    lemma_first_pressed_from(keys, j, 0);
}

/// The big-endian instruction word stored at memory address `a`.
pub open spec fn word_at(s: EmuView, a: int) -> u16 {
    (s.ram[a] * 0x100 + s.ram[a + 1]) as u16
}

proof fn lemma_first_pressed_props_from(keys: Seq<bool>, k: int)
    requires
        0 <= k <= NUM_KEYS,
    ensures
        ({
            let f = first_pressed(keys, k);
            &&& k <= f <= NUM_KEYS
            &&& f < NUM_KEYS ==> keys[f] && (forall|t: int| k <= t < f ==> !keys[t])
            &&& f == NUM_KEYS ==> (forall|t: int| k <= t < NUM_KEYS ==> !keys[t])
        }),
    decreases NUM_KEYS - k,
{
    if k < NUM_KEYS && !keys[k] {
        lemma_first_pressed_props_from(keys, k + 1);
    }
}

/// What the scan of the wait-for-key instruction returns: either the lowest
/// pressed key, or the end marker `NUM_KEYS` when no key is pressed.
pub proof fn lemma_first_pressed_props(keys: Seq<bool>)
    ensures
        ({
            let f = first_pressed(keys, 0);
            &&& 0 <= f <= NUM_KEYS
            &&& f < NUM_KEYS ==> keys[f] && (forall|t: int| 0 <= t < f ==> !keys[t])
            &&& f == NUM_KEYS ==> (forall|t: int| 0 <= t < NUM_KEYS ==> !keys[t])
        }),
{
    lemma_first_pressed_props_from(keys, 0);
}

/// One call of the timer unit: each countdown register is decremented when
/// nonzero and left at zero otherwise.
pub open spec fn timer_step(s: EmuView) -> EmuView {
    EmuView {
        dt: if s.dt > 0 {
            (s.dt - 1) as u8
        } else {
            0
        },
        st: if s.st > 0 {
            (s.st - 1) as u8
        } else {
            0
        },
        ..s
    }
}

/// The semantics of executing the already-fetched word `op` against state `s`
/// (whose program counter has already been advanced past the word). `rnd` is
/// the byte the random-number instruction draws; no other instruction reads
/// it. A fault leaves no partial effect: the machine state is unchanged.
pub open spec fn spec_execute(s: EmuView, op: u16, rnd: u8) -> Result<EmuView, Fault> {
    let d1 = nib1(op);
    let d3 = nib3(op);
    let d4 = nib4(op);
    let x = nib2(op) as int;
    let y = nib3(op) as int;
    let nnn = addr_nnn(op);
    let nn = imm_nn(op);
    if op == 0x0000 {
        // no-op
        Ok(s)
    } else if op == 0x00E0 {
        // clear display
        Ok(
            EmuView {
                screen: Seq::new((SCREEN_WIDTH * SCREEN_HEIGHT) as nat, |i: int| false),
                ..s
            },
        )
    } else if op == 0x00EE {
        // return from subroutine
        if s.sp == 0 {
            Err(Fault::OutOfBounds)
        } else {
            Ok(EmuView { pc: s.stack[s.sp - 1], sp: (s.sp - 1) as u16, ..s })
        }
    } else if d1 == 0x1 {
        // jump
        Ok(EmuView { pc: nnn, ..s })
    } else if d1 == 0x2 {
        // call subroutine
        if s.sp >= STACK_SIZE {
            Err(Fault::OutOfBounds)
        } else {
            Ok(
                EmuView {
                    stack: s.stack.update(s.sp as int, s.pc),
                    sp: (s.sp + 1) as u16,
                    pc: nnn,
                    ..s
                },
            )
        }
    } else if d1 == 0x3 {
        // skip if VX == NN
        if s.v_reg[x] == nn {
            Ok(EmuView { pc: (s.pc + 2) as u16, ..s })
        } else {
            Ok(s)
        }
    } else if d1 == 0x4 {
        // skip if VX != NN
        if s.v_reg[x] != nn {
            Ok(EmuView { pc: (s.pc + 2) as u16, ..s })
        } else {
            Ok(s)
        }
    } else if d1 == 0x5 && d4 == 0x0 {
        // skip if VX == VY
        if s.v_reg[x] == s.v_reg[y] {
            Ok(EmuView { pc: (s.pc + 2) as u16, ..s })
        } else {
            Ok(s)
        }
    } else if d1 == 0x6 {
        // VX = NN
        Ok(EmuView { v_reg: s.v_reg.update(x, nn), ..s })
    } else if d1 == 0x7 {
        // VX += NN, wrapping, flag untouched
        let sum = s.v_reg[x] + nn;
        let wrapped = if sum > 255 {
            (sum - 256) as u8
        } else {
            sum as u8
        };
        Ok(EmuView { v_reg: s.v_reg.update(x, wrapped), ..s })
    } else if d1 == 0x8 && d4 == 0x0 {
        // VX = VY
        Ok(EmuView { v_reg: s.v_reg.update(x, s.v_reg[y]), ..s })
    } else if d1 == 0x8 && d4 == 0x1 {
        // VX |= VY
        Ok(EmuView { v_reg: s.v_reg.update(x, s.v_reg[x] | s.v_reg[y]), ..s })
    } else if d1 == 0x8 && d4 == 0x2 {
        // VX &= VY
        Ok(EmuView { v_reg: s.v_reg.update(x, s.v_reg[x] & s.v_reg[y]), ..s })
    } else if d1 == 0x8 && d4 == 0x3 {
        // VX ^= VY
        Ok(EmuView { v_reg: s.v_reg.update(x, s.v_reg[x] ^ s.v_reg[y]), ..s })
    } else if d1 == 0x8 && d4 == 0x4 {
        // VX += VY, wrapping; flag = carry (written after VX, so it wins on X = F)
        let sum = s.v_reg[x] + s.v_reg[y];
        let wrapped = if sum > 255 {
            (sum - 256) as u8
        } else {
            sum as u8
        };
        let flag: u8 = if sum > 255 {
            1
        } else {
            0
        };
        Ok(EmuView { v_reg: s.v_reg.update(x, wrapped).update(0xF, flag), ..s })
    } else if d1 == 0x8 && d4 == 0x5 {
        // VX -= VY, wrapping; flag = 0 on borrow, 1 otherwise
        let diff = s.v_reg[x] - s.v_reg[y];
        let wrapped = if diff < 0 {
            (diff + 256) as u8
        } else {
            diff as u8
        };
        let flag: u8 = if diff < 0 {
            0
        } else {
            1
        };
        Ok(EmuView { v_reg: s.v_reg.update(x, wrapped).update(0xF, flag), ..s })
    } else if d1 == 0x8 && d4 == 0x6 {
        // VX >>= 1; flag = bit shifted out
        let flag: u8 = (s.v_reg[x] % 2) as u8;
        Ok(EmuView { v_reg: s.v_reg.update(x, (s.v_reg[x] / 2) as u8).update(0xF, flag), ..s })
    } else if d1 == 0x8 && d4 == 0x7 {
        // VX = VY - VX, wrapping; flag = 0 on borrow, 1 otherwise
        let diff = s.v_reg[y] - s.v_reg[x];
        let wrapped = if diff < 0 {
            (diff + 256) as u8
        } else {
            diff as u8
        };
        let flag: u8 = if diff < 0 {
            0
        } else {
            1
        };
        Ok(EmuView { v_reg: s.v_reg.update(x, wrapped).update(0xF, flag), ..s })
    } else if d1 == 0x8 && d4 == 0xE {
        // VX <<= 1; flag = bit shifted out
        let flag: u8 = (s.v_reg[x] / 128) as u8;
        let doubled = s.v_reg[x] * 2;
        let wrapped = if doubled > 255 {
            (doubled - 256) as u8
        } else {
            doubled as u8
        };
        Ok(EmuView { v_reg: s.v_reg.update(x, wrapped).update(0xF, flag), ..s })
    } else if d1 == 0x9 && d4 == 0x0 {
        // skip if VX != VY
        if s.v_reg[x] != s.v_reg[y] {
            Ok(EmuView { pc: (s.pc + 2) as u16, ..s })
        } else {
            Ok(s)
        }
    } else if d1 == 0xA {
        // I = NNN
        Ok(EmuView { i_reg: nnn, ..s })
    } else if d1 == 0xB {
        // jump to V0 + NNN
        Ok(EmuView { pc: (s.v_reg[0] + nnn) as u16, ..s })
    } else if d1 == 0xC {
        // VX = random byte & NN
        Ok(EmuView { v_reg: s.v_reg.update(x, rnd & nn), ..s })
    } else if d1 == 0xD {
        // draw sprite
        let n = d4 as int;
        let i = s.i_reg as int;
        if n > 0 && i + n > RAM_SIZE {
            Err(Fault::OutOfBounds)
        } else {
            let xc = s.v_reg[x] as int;
            let yc = s.v_reg[y] as int;
            let flag: u8 = if draw_collision(s.screen, s.ram, i, n, xc, yc) {
                1
            } else {
                0
            };
            Ok(
                EmuView {
                    screen: draw_screen(s.screen, s.ram, i, n, xc, yc),
                    v_reg: s.v_reg.update(0xF, flag),
                    ..s
                },
            )
        }
    } else if d1 == 0xE && d3 == 0x9 && d4 == 0xE {
        // skip if key VX pressed
        if s.v_reg[x] >= NUM_KEYS {
            Err(Fault::OutOfBounds)
        } else if s.keys[s.v_reg[x] as int] {
            Ok(EmuView { pc: (s.pc + 2) as u16, ..s })
        } else {
            Ok(s)
        }
    } else if d1 == 0xE && d3 == 0xA && d4 == 0x1 {
        // skip if key VX not pressed
        if s.v_reg[x] >= NUM_KEYS {
            Err(Fault::OutOfBounds)
        } else if !s.keys[s.v_reg[x] as int] {
            Ok(EmuView { pc: (s.pc + 2) as u16, ..s })
        } else {
            Ok(s)
        }
    } else if d1 == 0xF && d3 == 0x0 && d4 == 0x7 {
        // VX = delay timer
        Ok(EmuView { v_reg: s.v_reg.update(x, s.dt), ..s })
    } else if d1 == 0xF && d3 == 0x0 && d4 == 0xA {
        // wait for key: lowest pressed key into VX, or rewind to re-fetch
        let k = first_pressed(s.keys, 0);
        if k < NUM_KEYS {
            Ok(EmuView { v_reg: s.v_reg.update(x, k as u8), ..s })
        } else {
            Ok(EmuView { pc: (s.pc - 2) as u16, ..s })
        }
    } else if d1 == 0xF && d3 == 0x1 && d4 == 0x5 {
        // delay timer = VX
        Ok(EmuView { dt: s.v_reg[x], ..s })
    } else if d1 == 0xF && d3 == 0x1 && d4 == 0x8 {
        // sound timer = VX
        Ok(EmuView { st: s.v_reg[x], ..s })
    } else if d1 == 0xF && d3 == 0x1 && d4 == 0xE {
        // I += VX, wrapping
        let sum = s.i_reg + s.v_reg[x];
        let wrapped = if sum > 0xFFFF {
            (sum - 0x10000) as u16
        } else {
            sum as u16
        };
        Ok(EmuView { i_reg: wrapped, ..s })
    } else if d1 == 0xF && d3 == 0x2 && d4 == 0x9 {
        // I = font glyph base address of VX
        Ok(EmuView { i_reg: (s.v_reg[x] * 5) as u16, ..s })
    } else if d1 == 0xF && d3 == 0x3 && d4 == 0x3 {
        // binary-coded decimal of VX into memory[I..I+3]
        if s.i_reg + 3 > RAM_SIZE {
            Err(Fault::OutOfBounds)
        } else {
            let i = s.i_reg as int;
            let vx = s.v_reg[x];
            Ok(
                EmuView {
                    ram: s.ram.update(i, (vx / 100) as u8).update(
                        i + 1,
                        ((vx / 10) % 10) as u8,
                    ).update(i + 2, (vx % 10) as u8),
                    ..s
                },
            )
        }
    } else if d1 == 0xF && d3 == 0x5 && d4 == 0x5 {
        // store V0..=VX into memory[I..]
        if s.i_reg + x + 1 > RAM_SIZE {
            Err(Fault::OutOfBounds)
        } else {
            let i = s.i_reg as int;
            Ok(
                EmuView {
                    ram: Seq::new(
                        RAM_SIZE as nat,
                        |j: int|
                            if i <= j <= i + x {
                                s.v_reg[j - i]
                            } else {
                                s.ram[j]
                            },
                    ),
                    ..s
                },
            )
        }
    } else if d1 == 0xF && d3 == 0x6 && d4 == 0x5 {
        // load memory[I..] into V0..=VX
        if s.i_reg + x + 1 > RAM_SIZE {
            Err(Fault::OutOfBounds)
        } else {
            let i = s.i_reg as int;
            Ok(
                EmuView {
                    v_reg: Seq::new(
                        crate::state::NUM_REGS as nat,
                        |j: int|
                            if 0 <= j <= x {
                                s.ram[i + j]
                            } else {
                                s.v_reg[j]
                            },
                    ),
                    ..s
                },
            )
        }
    } else {
        Err(Fault::UnimplementedOpcode(op))
    }
}

/// One full cycle: fetch the big-endian word at the program counter, advance
/// the counter by two, and execute the word. Faults if the word would be read
/// past the end of memory; a fault leaves the machine unchanged.
pub open spec fn spec_tick(s: EmuView, rnd: u8) -> Result<EmuView, Fault> {
    if s.pc + 1 >= RAM_SIZE {
        Err(Fault::OutOfBounds)
    } else {
        let op = (s.ram[s.pc as int] * 0x100 + s.ram[s.pc as int + 1]) as u16;
        spec_execute(EmuView { pc: (s.pc + 2) as u16, ..s }, op, rnd)
    }
}

} // verus!
