//! Behavior tests for the CHIP-8 interpreter, driven through its public API.

use chip8_core::Emu;
use chip8_core::Fault;

/// A machine with the given program loaded.
fn emu_with(rom: &[u8]) -> Emu {
    let mut emu = Emu::new();
    emu.load(rom);
    emu
}

/// Run `n` instruction cycles, failing the test on any fault.
fn run(emu: &mut Emu, n: usize) {
    for _ in 0..n {
        emu.tick().unwrap();
    }
}

const FONTSET: [u8; 80] = [
    0xF0, 0x90, 0x90, 0x90, 0xF0, // 0
    0x20, 0x60, 0x20, 0x20, 0x70, // 1
    0xF0, 0x10, 0xF0, 0x80, 0xF0, // 2
    0xF0, 0x10, 0xF0, 0x10, 0xF0, // 3
    0x90, 0x90, 0xF0, 0x10, 0x10, // 4
    0xF0, 0x80, 0xF0, 0x10, 0xF0, // 5
    0xF0, 0x80, 0xF0, 0x90, 0xF0, // 6
    0xF0, 0x10, 0x20, 0x40, 0x40, // 7
    0xF0, 0x90, 0xF0, 0x90, 0xF0, // 8
    0xF0, 0x90, 0xF0, 0x10, 0xF0, // 9
    0xF0, 0x90, 0xF0, 0x90, 0x90, // A
    0xE0, 0x90, 0xE0, 0x90, 0xE0, // B
    0xF0, 0x80, 0x80, 0x80, 0xF0, // C
    0xE0, 0x90, 0x90, 0x90, 0xE0, // D
    0xF0, 0x80, 0xF0, 0x80, 0xF0, // E
    0xF0, 0x80, 0xF0, 0x80, 0x80, // F
];

#[test]
fn font_loaded_after_new() {
    let emu = Emu::new();
    for c in 0..16usize {
        for j in 0..5usize {
            assert_eq!(emu.get_memory(c * 5 + j), FONTSET[c * 5 + j]);
        }
    }
    assert_eq!(emu.get_pc(), 0x200);
}

#[test]
fn font_restored_after_reset() {
    // Overwrite the first font byte via a register-block store, then reset.
    let mut emu = emu_with(&[0x60, 0x00, 0xA0, 0x00, 0xF0, 0x55]);
    run(&mut emu, 3);
    assert_eq!(emu.get_memory(0), 0x00);
    emu.reset();
    for k in 0..80usize {
        assert_eq!(emu.get_memory(k), FONTSET[k]);
    }
    assert_eq!(emu.get_pc(), 0x200);
    assert_eq!(emu.get_register(0), 0);
    assert!(emu.get_display().iter().all(|p| !p));
}

#[test]
fn display_has_fixed_size() {
    let emu = Emu::new();
    assert_eq!(emu.get_display().len(), 64 * 32);
}

#[test]
fn add_imm_wraps_and_keeps_flag() {
    // VF = 5; V0 = 255; V0 += 2 wraps to 1 and must not touch VF.
    let mut emu = emu_with(&[0x6F, 0x05, 0x60, 0xFF, 0x70, 0x02]);
    run(&mut emu, 3);
    assert_eq!(emu.get_register(0), 1);
    assert_eq!(emu.get_register(0xF), 5);
}

fn alu_case(opcode_hi: u8, opcode_lo: u8, v0: u8, v1: u8) -> (u8, u8) {
    let mut emu = emu_with(&[0x60, v0, 0x61, v1, opcode_hi, opcode_lo]);
    run(&mut emu, 3);
    (emu.get_register(0), emu.get_register(0xF))
}

#[test]
fn add_reg_carry_boundaries() {
    assert_eq!(alu_case(0x80, 0x14, 0, 255), (255, 0));
    assert_eq!(alu_case(0x80, 0x14, 255, 1), (0, 1));
    assert_eq!(alu_case(0x80, 0x14, 128, 128), (0, 1));
}

#[test]
fn sub_reg_borrow_boundaries() {
    assert_eq!(alu_case(0x80, 0x15, 0, 255), (1, 0));
    assert_eq!(alu_case(0x80, 0x15, 255, 1), (254, 1));
    assert_eq!(alu_case(0x80, 0x15, 128, 128), (0, 1));
}

#[test]
fn rsub_reg_borrow_boundaries() {
    assert_eq!(alu_case(0x80, 0x17, 0, 255), (255, 1));
    assert_eq!(alu_case(0x80, 0x17, 255, 1), (2, 0));
    assert_eq!(alu_case(0x80, 0x17, 128, 128), (0, 1));
}

#[test]
fn bitwise_ops() {
    assert_eq!(alu_case(0x80, 0x11, 0b1100, 0b1010).0, 0b1110);
    assert_eq!(alu_case(0x80, 0x12, 0b1100, 0b1010).0, 0b1000);
    assert_eq!(alu_case(0x80, 0x13, 0b1100, 0b1010).0, 0b0110);
}

#[test]
fn reg_copy() {
    assert_eq!(alu_case(0x80, 0x10, 7, 42).0, 42);
}

#[test]
fn shr_captures_lsb() {
    // V0 = 3: shift gives 1, flag captures the dropped low bit 1.
    let mut emu = emu_with(&[0x60, 0x03, 0x80, 0x06]);
    run(&mut emu, 2);
    assert_eq!(emu.get_register(0), 1);
    assert_eq!(emu.get_register(0xF), 1);
    // V0 = 4: shift gives 2, flag 0.
    let mut emu = emu_with(&[0x60, 0x04, 0x80, 0x06]);
    run(&mut emu, 2);
    assert_eq!(emu.get_register(0), 2);
    assert_eq!(emu.get_register(0xF), 0);
}

#[test]
fn shl_captures_msb() {
    // V0 = 0x81: shift gives 2, flag captures the dropped high bit 1.
    let mut emu = emu_with(&[0x60, 0x81, 0x80, 0x0E]);
    run(&mut emu, 2);
    assert_eq!(emu.get_register(0), 2);
    assert_eq!(emu.get_register(0xF), 1);
    // V0 = 0x41: shift gives 0x82, flag 0.
    let mut emu = emu_with(&[0x60, 0x41, 0x80, 0x0E]);
    run(&mut emu, 2);
    assert_eq!(emu.get_register(0), 0x82);
    assert_eq!(emu.get_register(0xF), 0);
}

#[test]
fn draw_twice_restores_blank_screen() {
    // Store the row 0xFF at 0x300, then draw it twice at (0, 0).
    let rom = [
        0x60, 0xFF, // V0 = 0xFF
        0xA3, 0x00, // I = 0x300
        0xF0, 0x55, // memory[I] = V0
        0x60, 0x00, // V0 = 0
        0x61, 0x00, // V1 = 0
        0xD0, 0x11, // draw 1 row at (V0, V1)
        0xD0, 0x11, // draw the same sprite again
    ];
    let mut emu = emu_with(&rom);
    run(&mut emu, 6);
    {
        let display = emu.get_display();
        for x in 0..8usize {
            assert!(display[x], "pixel {} should be lit after the first draw", x);
        }
    }
    assert_eq!(emu.get_register(0xF), 0, "first draw collides with nothing");
    run(&mut emu, 1);
    assert_eq!(emu.get_register(0xF), 1, "second draw must report the collision");
    assert!(emu.get_display().iter().all(|p| !p), "screen must return to all-dark");
}

#[test]
fn sprite_wraps_around_right_edge() {
    // Draw the row 0xFF at x = 63: one pixel at 63, the rest wrap to 0..=6.
    let rom = [
        0x60, 0xFF, // V0 = 0xFF
        0xA3, 0x00, // I = 0x300
        0xF0, 0x55, // memory[I] = V0
        0x60, 0x3F, // V0 = 63
        0x61, 0x00, // V1 = 0
        0xD0, 0x11, // draw 1 row at (63, 0)
    ];
    let mut emu = emu_with(&rom);
    run(&mut emu, 6);
    let display = emu.get_display();
    assert!(display[63]);
    for x in 0..7usize {
        assert!(display[x], "pixel {} should have wrapped around", x);
    }
    for x in 7..63usize {
        assert!(!display[x], "pixel {} should stay dark", x);
    }
    assert!(display[64..].iter().all(|p| !p), "other rows stay dark");
}

#[test]
fn call_return_round_trip() {
    // 0x200: call 0x300; 0x300: return. The counter ends just past the call.
    let mut rom = vec![0u8; 0x102];
    rom[0] = 0x23; // 2NNN with NNN = 0x300
    rom[1] = 0x00;
    rom[0x100] = 0x00; // 00EE at 0x300
    rom[0x101] = 0xEE;
    let mut emu = emu_with(&rom);
    emu.tick().unwrap();
    assert_eq!(emu.get_pc(), 0x300);
    emu.tick().unwrap();
    assert_eq!(emu.get_pc(), 0x202);
}

#[test]
fn wait_key_blocks_until_press() {
    let mut emu = emu_with(&[0xF0, 0x0A]);
    for _ in 0..3 {
        emu.tick().unwrap();
        assert_eq!(emu.get_pc(), 0x200, "the same instruction is re-fetched");
        assert_eq!(emu.get_register(0), 0, "VX stays untouched while blocked");
    }
    emu.keypress(7, true);
    emu.tick().unwrap();
    assert_eq!(emu.get_pc(), 0x202);
    assert_eq!(emu.get_register(0), 7);
}

#[test]
fn wait_key_takes_lowest_pressed() {
    let mut emu = emu_with(&[0xF0, 0x0A]);
    emu.keypress(9, true);
    emu.keypress(3, true);
    emu.tick().unwrap();
    assert_eq!(emu.get_register(0), 3);
}

#[test]
fn end_to_end_store_clear_jump() {
    // V0 = 5; I = 0; store V0 to memory[0]; clear screen; jump to 0x200.
    let rom = [0x60, 0x05, 0xA0, 0x00, 0xF0, 0x55, 0x00, 0xE0, 0x12, 0x00];
    let mut emu = emu_with(&rom);
    run(&mut emu, 5);
    assert_eq!(emu.get_register(0), 5);
    assert_eq!(emu.get_index_register(), 0);
    assert_eq!(emu.get_memory(0), 5);
    assert!(emu.get_display().iter().all(|p| !p));
    assert_eq!(emu.get_pc(), 0x200, "the jump loops back to the start");
    // The loop runs again from the start.
    run(&mut emu, 5);
    assert_eq!(emu.get_pc(), 0x200);
}

#[test]
fn timers_decrement_independently() {
    let mut emu = emu_with(&[0x60, 0x02, 0xF0, 0x15, 0x61, 0x05, 0xF1, 0x18]);
    run(&mut emu, 4);
    assert_eq!(emu.get_delay_timer(), 2);
    assert_eq!(emu.get_sound_timer(), 5);
    emu.tick_timers();
    assert_eq!(emu.get_delay_timer(), 1);
    assert_eq!(emu.get_sound_timer(), 4);
    emu.tick_timers();
    emu.tick_timers();
    assert_eq!(emu.get_delay_timer(), 0, "the delay timer stops at zero");
    assert_eq!(emu.get_sound_timer(), 2);
}

#[test]
fn delay_timer_read_back() {
    let mut emu = emu_with(&[0x60, 0x05, 0xF0, 0x15, 0xF3, 0x07]);
    run(&mut emu, 3);
    assert_eq!(emu.get_register(3), 5);
}

#[test]
fn unknown_opcode_faults_and_leaves_state() {
    let mut emu = emu_with(&[0x80, 0x08]);
    assert_eq!(emu.tick(), Err(Fault::UnimplementedOpcode(0x8008)));
    assert_eq!(emu.get_pc(), 0x200, "a fault leaves the machine unchanged");
    let mut emu = emu_with(&[0x00, 0x01]);
    assert_eq!(emu.tick(), Err(Fault::UnimplementedOpcode(0x0001)));
}

#[test]
fn return_on_empty_stack_faults() {
    let mut emu = emu_with(&[0x00, 0xEE]);
    assert_eq!(emu.tick(), Err(Fault::OutOfBounds));
    assert_eq!(emu.get_pc(), 0x200);
}

#[test]
fn call_past_stack_capacity_faults() {
    // A call instruction that calls itself nests one level per cycle.
    let mut emu = emu_with(&[0x22, 0x00]);
    for _ in 0..16 {
        emu.tick().unwrap();
        assert_eq!(emu.get_pc(), 0x200);
    }
    assert_eq!(emu.tick(), Err(Fault::OutOfBounds));
    assert_eq!(emu.get_pc(), 0x200);
}

#[test]
fn random_masked_to_zero() {
    // Whatever byte is drawn, the mask 0x00 forces V0 to zero.
    let mut emu = emu_with(&[0x60, 0xAA, 0xC0, 0x00]);
    run(&mut emu, 2);
    assert_eq!(emu.get_register(0), 0);
}

#[test]
fn skip_if_key_pressed() {
    let mut emu = emu_with(&[0x60, 0x07, 0xE0, 0x9E]);
    emu.keypress(7, true);
    run(&mut emu, 2);
    assert_eq!(emu.get_pc(), 0x206, "the next instruction is skipped");
    let mut emu = emu_with(&[0x60, 0x07, 0xE0, 0x9E]);
    run(&mut emu, 2);
    assert_eq!(emu.get_pc(), 0x204, "no skip while the key is up");
}

#[test]
fn skip_if_key_not_pressed() {
    let mut emu = emu_with(&[0x60, 0x07, 0xE0, 0xA1]);
    run(&mut emu, 2);
    assert_eq!(emu.get_pc(), 0x206);
    let mut emu = emu_with(&[0x60, 0x07, 0xE0, 0xA1]);
    emu.keypress(7, true);
    run(&mut emu, 2);
    assert_eq!(emu.get_pc(), 0x204);
    emu.keypress(7, false);
    emu.reset();
    emu.load(&[0x60, 0x07, 0xE0, 0xA1]);
    run(&mut emu, 2);
    assert_eq!(emu.get_pc(), 0x206, "releasing the key restores the skip");
}

#[test]
fn binary_coded_decimal() {
    let mut emu = emu_with(&[0x60, 0xFE, 0xA3, 0x00, 0xF0, 0x33]);
    run(&mut emu, 3);
    assert_eq!(emu.get_memory(0x300), 2);
    assert_eq!(emu.get_memory(0x301), 5);
    assert_eq!(emu.get_memory(0x302), 4);
}

#[test]
fn store_and_load_register_block() {
    let rom = [
        0x60, 0x11, // V0 = 0x11
        0x61, 0x22, // V1 = 0x22
        0x62, 0x33, // V2 = 0x33
        0xA3, 0x00, // I = 0x300
        0xF2, 0x55, // store V0..=V2
        0x60, 0x00, // clobber V0
        0x61, 0x00, // clobber V1
        0x62, 0x00, // clobber V2
        0xF2, 0x65, // load V0..=V2 back
    ];
    let mut emu = emu_with(&rom);
    run(&mut emu, 5);
    assert_eq!(emu.get_memory(0x300), 0x11);
    assert_eq!(emu.get_memory(0x301), 0x22);
    assert_eq!(emu.get_memory(0x302), 0x33);
    run(&mut emu, 4);
    assert_eq!(emu.get_register(0), 0x11);
    assert_eq!(emu.get_register(1), 0x22);
    assert_eq!(emu.get_register(2), 0x33);
}

#[test]
fn index_register_ops() {
    let mut emu = emu_with(&[0xA1, 0x23, 0x60, 0x05, 0xF0, 0x1E]);
    run(&mut emu, 3);
    assert_eq!(emu.get_index_register(), 0x128);
}

#[test]
fn font_glyph_address() {
    let mut emu = emu_with(&[0x60, 0x07, 0xF0, 0x29]);
    run(&mut emu, 2);
    assert_eq!(emu.get_index_register(), 35);
}

#[test]
fn jump_and_jump_with_offset() {
    let mut emu = emu_with(&[0x13, 0x00]);
    run(&mut emu, 1);
    assert_eq!(emu.get_pc(), 0x300);
    let mut emu = emu_with(&[0x60, 0x10, 0xB3, 0x00]);
    run(&mut emu, 2);
    assert_eq!(emu.get_pc(), 0x310);
}

#[test]
fn conditional_skips() {
    // 3XNN skips when equal.
    let mut emu = emu_with(&[0x60, 0x05, 0x30, 0x05]);
    run(&mut emu, 2);
    assert_eq!(emu.get_pc(), 0x206);
    // 4XNN skips when not equal.
    let mut emu = emu_with(&[0x60, 0x05, 0x40, 0x06]);
    run(&mut emu, 2);
    assert_eq!(emu.get_pc(), 0x206);
    // 5XY0 skips when the registers agree.
    let mut emu = emu_with(&[0x60, 0x05, 0x61, 0x05, 0x50, 0x10]);
    run(&mut emu, 3);
    assert_eq!(emu.get_pc(), 0x208);
    // 9XY0 skips when they differ.
    let mut emu = emu_with(&[0x60, 0x05, 0x61, 0x06, 0x90, 0x10]);
    run(&mut emu, 3);
    assert_eq!(emu.get_pc(), 0x208);
    // No skip when the condition fails.
    let mut emu = emu_with(&[0x60, 0x05, 0x30, 0x06]);
    run(&mut emu, 2);
    assert_eq!(emu.get_pc(), 0x204);
}

#[test]
fn draw_reads_sprite_past_memory_faults() {
    // I = 0xFFF leaves no room for a 2-row sprite.
    let mut emu = emu_with(&[0xAF, 0xFF, 0xD0, 0x02]);
    emu.tick().unwrap();
    assert_eq!(emu.tick(), Err(Fault::OutOfBounds));
    assert_eq!(emu.get_pc(), 0x202);
}

#[test]
fn fetch_past_end_of_memory_faults() {
    let mut emu = emu_with(&[0x1F, 0xFE]); // jump to 0xFFE
    emu.tick().unwrap();
    assert_eq!(emu.get_pc(), 0xFFE);
    emu.tick().unwrap(); // the word at 0xFFE is 0x0000: a no-op
    assert_eq!(emu.get_pc(), 0x1000);
    assert_eq!(emu.tick(), Err(Fault::OutOfBounds));
    assert_eq!(emu.get_pc(), 0x1000, "a fault leaves the machine unchanged");
}

#[test]
fn bcd_past_memory_faults() {
    let mut emu = emu_with(&[0xAF, 0xFF, 0xF0, 0x33]);
    emu.tick().unwrap();
    assert_eq!(emu.tick(), Err(Fault::OutOfBounds));
}

#[test]
fn store_registers_past_memory_faults() {
    let mut emu = emu_with(&[0xAF, 0xFF, 0xF1, 0x55]);
    emu.tick().unwrap();
    assert_eq!(emu.tick(), Err(Fault::OutOfBounds));
}

#[test]
fn empty_rom_runs_no_ops() {
    let mut emu = emu_with(&[]);
    emu.tick().unwrap();
    assert_eq!(emu.get_pc(), 0x202);
}

#[test]
fn drawing_font_glyph_sets_pixels() {
    // Draw one row of glyph 0 (0xF0) at (0, 0): pixels 0..=3 lit, 4..=7 dark.
    let mut emu = emu_with(&[0x60, 0x00, 0xF0, 0x29, 0x61, 0x00, 0xD1, 0x11]);
    run(&mut emu, 4);
    let display = emu.get_display();
    for x in 0..4usize {
        assert!(display[x]);
    }
    for x in 4..8usize {
        assert!(!display[x]);
    }
}
