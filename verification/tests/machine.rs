use flake_8::chip8::{Chip8, Error, Registers};
use flake_8::keymap::KeyMap;

/// A machine with `rom` loaded at the normal offset, plus an idle keymap.
fn boot(rom: &[u8]) -> (Chip8, KeyMap) {
    let mut cpu = Chip8::new();
    cpu.load_rom(rom, false);
    (cpu, KeyMap::new())
}

#[test]
fn load_immediate_reads_back() {
    let (mut cpu, keys) = boot(&[0x63, 0xAB]);
    cpu.step(&keys).unwrap();
    assert_eq!(cpu.register(3), 0xAB);
    assert_eq!(cpu.program_counter(), 0x202);
}

#[test]
fn load_then_add_immediate_scenario() {
    let (mut cpu, keys) = boot(&[0x60, 0x05, 0x70, 0x03]);
    cpu.step(&keys).unwrap();
    cpu.step(&keys).unwrap();
    assert_eq!(cpu.register(0), 8);
    assert_eq!(cpu.program_counter(), 0x204);
    // The add-immediate form has no flag side effect.
    assert_eq!(cpu.register(15), 0);
}

#[test]
fn add_immediate_wraps_without_flag() {
    let (mut cpu, keys) = boot(&[0x60, 0xFF, 0x70, 0x02, 0x6F, 0x07, 0x7F, 0x01]);
    cpu.step(&keys).unwrap();
    cpu.step(&keys).unwrap();
    assert_eq!(cpu.register(0), 1);
    assert_eq!(cpu.register(15), 0);
    // Even with the flag register as destination, no flag is written.
    cpu.step(&keys).unwrap();
    cpu.step(&keys).unwrap();
    assert_eq!(cpu.register(15), 8);
}

#[test]
fn add_with_carry_sets_flag_and_wraps() {
    // V0 = 200, V1 = 100, V0 += V1: 300 >= 256.
    let (mut cpu, keys) = boot(&[0x60, 0xC8, 0x61, 0x64, 0x80, 0x14]);
    cpu.step(&keys).unwrap();
    cpu.step(&keys).unwrap();
    cpu.step(&keys).unwrap();
    assert_eq!(cpu.register(0), 44); // 300 mod 256
    assert_eq!(cpu.register(15), 1);
}

#[test]
fn add_without_carry_clears_flag() {
    // Leave a stale 1 in VF first, then add a small pair.
    let (mut cpu, keys) = boot(&[0x6F, 0x01, 0x60, 0x0A, 0x61, 0x14, 0x80, 0x14]);
    for _ in 0..4 {
        cpu.step(&keys).unwrap();
    }
    assert_eq!(cpu.register(0), 30);
    assert_eq!(cpu.register(15), 0);
}

#[test]
fn subtract_forward_flag_iff_minuend_exceeds() {
    // V0 = 10, V1 = 3, V0 -= V1.
    let (mut cpu, keys) = boot(&[0x60, 0x0A, 0x61, 0x03, 0x80, 0x15]);
    cpu.step(&keys).unwrap();
    cpu.step(&keys).unwrap();
    cpu.step(&keys).unwrap();
    assert_eq!(cpu.register(0), 7);
    assert_eq!(cpu.register(15), 1);
}

#[test]
fn subtract_forward_wraps_when_subtrahend_larger() {
    // V0 = 3, V1 = 10, V0 -= V1: result (3 - 10) mod 256 = 249, flag 0.
    let (mut cpu, keys) = boot(&[0x60, 0x03, 0x61, 0x0A, 0x80, 0x15]);
    cpu.step(&keys).unwrap();
    cpu.step(&keys).unwrap();
    cpu.step(&keys).unwrap();
    assert_eq!(cpu.register(0), 249);
    assert_eq!(cpu.register(15), 0);
}

#[test]
fn subtract_forward_equal_operands_clears_flag() {
    let (mut cpu, keys) = boot(&[0x60, 0x07, 0x61, 0x07, 0x80, 0x15]);
    cpu.step(&keys).unwrap();
    cpu.step(&keys).unwrap();
    cpu.step(&keys).unwrap();
    assert_eq!(cpu.register(0), 0);
    assert_eq!(cpu.register(15), 0);
}

#[test]
fn subtract_reverse_stores_vy_minus_vx() {
    // V0 = 3, V1 = 10, V0 := V1 - V0.
    let (mut cpu, keys) = boot(&[0x60, 0x03, 0x61, 0x0A, 0x80, 0x17]);
    cpu.step(&keys).unwrap();
    cpu.step(&keys).unwrap();
    cpu.step(&keys).unwrap();
    assert_eq!(cpu.register(0), 7);
    assert_eq!(cpu.register(15), 1);
}

#[test]
fn flag_register_as_add_destination_keeps_flag() {
    // VF = 200, V1 = 100, VF += V1: the flag overwrite wins over the sum.
    let (mut cpu, keys) = boot(&[0x6F, 0xC8, 0x61, 0x64, 0x8F, 0x14]);
    cpu.step(&keys).unwrap();
    cpu.step(&keys).unwrap();
    cpu.step(&keys).unwrap();
    assert_eq!(cpu.register(15), 1);
}

#[test]
fn bitwise_or_and_xor() {
    let (mut cpu, keys) = boot(&[
        0x60, 0x0C, 0x61, 0x0A, 0x80, 0x11, // V0 = 0x0C | 0x0A = 0x0E
        0x62, 0x0C, 0x63, 0x0A, 0x82, 0x32, // V2 = 0x0C & 0x0A = 0x08
        0x64, 0x0C, 0x65, 0x0A, 0x84, 0x53, // V4 = 0x0C ^ 0x0A = 0x06
    ]);
    for _ in 0..9 {
        cpu.step(&keys).unwrap();
    }
    assert_eq!(cpu.register(0), 0x0E);
    assert_eq!(cpu.register(2), 0x08);
    assert_eq!(cpu.register(4), 0x06);
}

#[test]
fn copy_register() {
    let (mut cpu, keys) = boot(&[0x61, 0x2A, 0x80, 0x10]);
    cpu.step(&keys).unwrap();
    cpu.step(&keys).unwrap();
    assert_eq!(cpu.register(0), 0x2A);
}

#[test]
fn shift_right_flag_is_low_bit() {
    let (mut cpu, keys) = boot(&[0x60, 0x05, 0x80, 0x06]);
    cpu.step(&keys).unwrap();
    cpu.step(&keys).unwrap();
    assert_eq!(cpu.register(0), 2);
    assert_eq!(cpu.register(15), 1);
}

#[test]
fn shift_left_flag_is_high_bit() {
    let (mut cpu, keys) = boot(&[0x60, 0x81, 0x80, 0x0E]);
    cpu.step(&keys).unwrap();
    cpu.step(&keys).unwrap();
    assert_eq!(cpu.register(0), 0x02);
    assert_eq!(cpu.register(15), 1);
}

#[test]
fn skip_equal_immediate_taken_and_not_taken() {
    let (mut cpu, keys) = boot(&[0x60, 0x07, 0x30, 0x07]);
    cpu.step(&keys).unwrap();
    cpu.step(&keys).unwrap();
    assert_eq!(cpu.program_counter(), 0x206);

    let (mut cpu2, keys2) = boot(&[0x60, 0x07, 0x30, 0x08]);
    cpu2.step(&keys2).unwrap();
    cpu2.step(&keys2).unwrap();
    assert_eq!(cpu2.program_counter(), 0x204);
}

#[test]
fn skip_not_equal_immediate() {
    let (mut cpu, keys) = boot(&[0x60, 0x07, 0x40, 0x08]);
    cpu.step(&keys).unwrap();
    cpu.step(&keys).unwrap();
    assert_eq!(cpu.program_counter(), 0x206);
}

#[test]
fn skip_register_comparisons() {
    let (mut cpu, keys) = boot(&[0x60, 0x07, 0x61, 0x07, 0x50, 0x10]);
    cpu.step(&keys).unwrap();
    cpu.step(&keys).unwrap();
    cpu.step(&keys).unwrap();
    assert_eq!(cpu.program_counter(), 0x208);

    let (mut cpu2, keys2) = boot(&[0x60, 0x07, 0x61, 0x08, 0x90, 0x10]);
    cpu2.step(&keys2).unwrap();
    cpu2.step(&keys2).unwrap();
    cpu2.step(&keys2).unwrap();
    assert_eq!(cpu2.program_counter(), 0x208);
}

#[test]
fn jump_sets_program_counter() {
    let (mut cpu, keys) = boot(&[0x1A, 0xBC]);
    cpu.step(&keys).unwrap();
    assert_eq!(cpu.program_counter(), 0xABC);
}

#[test]
fn jump_plus_v0_adds_register() {
    let (mut cpu, keys) = boot(&[0x60, 0x04, 0xB3, 0x00]);
    cpu.step(&keys).unwrap();
    cpu.step(&keys).unwrap();
    assert_eq!(cpu.program_counter(), 0x304);
}

#[test]
fn call_ret_round_trip() {
    // 0x200: CALL 0x204; 0x202: unreachable; 0x204: RET.
    let (mut cpu, keys) = boot(&[0x22, 0x04, 0x00, 0x00, 0x00, 0xEE]);
    let depth_before = cpu.stack_pointer();
    cpu.step(&keys).unwrap();
    assert_eq!(cpu.program_counter(), 0x204);
    assert_eq!(cpu.stack_pointer(), depth_before + 1);
    cpu.step(&keys).unwrap();
    assert_eq!(cpu.program_counter(), 0x202);
    assert_eq!(cpu.stack_pointer(), depth_before);
}

#[test]
fn stack_overflow_is_reported() {
    // A subroutine that calls itself: each step pushes one return address.
    let (mut cpu, keys) = boot(&[0x22, 0x00]);
    for _ in 0..16 {
        cpu.step(&keys).unwrap();
    }
    assert_eq!(cpu.stack_pointer(), 16);
    assert_eq!(cpu.step(&keys), Err(Error::StackOverflow));
    assert_eq!(cpu.stack_pointer(), 16);
}

#[test]
fn stack_underflow_is_reported() {
    let (mut cpu, keys) = boot(&[0x00, 0xEE]);
    assert_eq!(cpu.step(&keys), Err(Error::StackUnderflow));
    assert_eq!(cpu.program_counter(), 0x200);
}

#[test]
fn unrecognised_word_reports_its_bytes_and_changes_nothing() {
    let (mut cpu, keys) = boot(&[0xFF, 0xFF]);
    let result = cpu.step(&keys);
    assert_eq!(result, Err(Error::UnrecognisedInstruction(0xFF, 0xFF)));
    // Program counter, registers, memory and display are all unchanged.
    assert_eq!(cpu.program_counter(), 0x200);
    for x in 0..16 {
        assert_eq!(cpu.register(x), 0);
    }
    assert_eq!(cpu.ram_at(0x200), 0xFF);
    assert_eq!(cpu.ram_at(0x201), 0xFF);
    assert_eq!(cpu.ram_at(0), 0xF0); // font still in place
    for y in 0..32 {
        for x in 0..64 {
            assert!(!cpu.display.get(x, y));
        }
    }
}

#[test]
fn unknown_secondary_opcodes_are_reported() {
    let (mut cpu, keys) = boot(&[0x80, 0x08]);
    assert_eq!(
        cpu.step(&keys),
        Err(Error::UnrecognisedInstruction(0x80, 0x08))
    );

    let (mut cpu2, keys2) = boot(&[0xE0, 0x00]);
    assert_eq!(
        cpu2.step(&keys2),
        Err(Error::UnrecognisedInstruction(0xE0, 0x00))
    );

    let (mut cpu3, keys3) = boot(&[0xF0, 0x99]);
    assert_eq!(
        cpu3.step(&keys3),
        Err(Error::UnrecognisedInstruction(0xF0, 0x99))
    );
}

#[test]
fn legacy_sys_opcode_is_a_silent_no_op() {
    let (mut cpu, keys) = boot(&[0x01, 0x23]);
    cpu.step(&keys).unwrap();
    assert_eq!(cpu.program_counter(), 0x202);
}

#[test]
fn load_address_register() {
    let (mut cpu, keys) = boot(&[0xA1, 0x23]);
    cpu.step(&keys).unwrap();
    assert_eq!(cpu.address_register(), 0x123);
}

#[test]
fn add_to_address_register_wraps_at_16_bits() {
    let (mut cpu, keys) = boot(&[0xAF, 0xFF, 0x60, 0x10, 0xF0, 0x1E]);
    cpu.step(&keys).unwrap();
    cpu.step(&keys).unwrap();
    cpu.step(&keys).unwrap();
    assert_eq!(cpu.address_register(), 0x100F);
}

#[test]
fn font_address_for_digit() {
    let (mut cpu, keys) = boot(&[0x60, 0x0A, 0xF0, 0x29]);
    cpu.step(&keys).unwrap();
    cpu.step(&keys).unwrap();
    assert_eq!(cpu.address_register(), 50); // digit 0xA at 10 * 5
}

#[test]
fn font_address_out_of_range_is_a_no_op() {
    let (mut cpu, keys) = boot(&[0xA1, 0x00, 0x60, 0x10, 0xF0, 0x29]);
    cpu.step(&keys).unwrap();
    cpu.step(&keys).unwrap();
    cpu.step(&keys).unwrap();
    assert_eq!(cpu.address_register(), 0x100);
    assert_eq!(cpu.program_counter(), 0x206);
}

#[test]
fn store_bcd_digits() {
    let (mut cpu, keys) = boot(&[0x60, 0x7B, 0xA3, 0x00, 0xF0, 0x33]);
    cpu.step(&keys).unwrap();
    cpu.step(&keys).unwrap();
    cpu.step(&keys).unwrap();
    assert_eq!(cpu.ram_at(0x300), 1);
    assert_eq!(cpu.ram_at(0x301), 2);
    assert_eq!(cpu.ram_at(0x302), 3);
}

#[test]
fn store_and_load_register_block() {
    let (mut cpu, keys) = boot(&[
        0x60, 0x11, 0x61, 0x22, 0x62, 0x33, // V0..V2
        0xA3, 0x00, 0xF2, 0x55, // store V0..=V2 at 0x300
        0x60, 0x00, 0x61, 0x00, 0x62, 0x00, // clobber them
        0xF2, 0x65, // load them back
    ]);
    for _ in 0..9 {
        cpu.step(&keys).unwrap();
    }
    assert_eq!(cpu.ram_at(0x300), 0x11);
    assert_eq!(cpu.ram_at(0x301), 0x22);
    assert_eq!(cpu.ram_at(0x302), 0x33);
    assert_eq!(cpu.register(0), 0x11);
    assert_eq!(cpu.register(1), 0x22);
    assert_eq!(cpu.register(2), 0x33);
}

#[test]
fn random_byte_is_masked() {
    let (mut cpu, keys) = boot(&[0xC0, 0x00, 0xC1, 0x0F]);
    cpu.step(&keys).unwrap();
    cpu.step(&keys).unwrap();
    assert_eq!(cpu.register(0), 0); // masked with 0x00
    assert_eq!(cpu.register(1) & 0xF0, 0); // masked with 0x0F
}

#[test]
fn timers_load_and_read_back() {
    let (mut cpu, keys) = boot(&[0x60, 0x30, 0xF0, 0x15, 0xF1, 0x07]);
    cpu.step(&keys).unwrap();
    cpu.step(&keys).unwrap();
    assert_eq!(cpu.delay_timer(), 0x30);
    cpu.step(&keys).unwrap();
    // Steps run far faster than the 60 Hz tick, so no decrement between
    // the set and the read.
    assert_eq!(cpu.register(1), 0x30);
}

#[test]
fn sound_timer_drives_sound_on() {
    let (mut cpu, keys) = boot(&[0x60, 0x02, 0xF0, 0x18]);
    assert!(!cpu.sound_on());
    cpu.step(&keys).unwrap();
    cpu.step(&keys).unwrap();
    assert!(cpu.sound_on());
    assert_eq!(cpu.sound_timer(), 2);
}

#[test]
fn skip_if_key_pressed() {
    let mut keys = KeyMap::new();
    keys.add_key(5);
    let mut cpu = Chip8::new();
    cpu.load_rom(&[0x60, 0x05, 0xE0, 0x9E], false);
    cpu.step(&keys).unwrap();
    cpu.step(&keys).unwrap();
    assert_eq!(cpu.program_counter(), 0x206);
}

#[test]
fn skip_if_key_not_pressed() {
    let keys = KeyMap::new();
    let mut cpu = Chip8::new();
    cpu.load_rom(&[0x60, 0x05, 0xE0, 0xA1], false);
    cpu.step(&keys).unwrap();
    cpu.step(&keys).unwrap();
    assert_eq!(cpu.program_counter(), 0x206);
}

#[test]
fn wait_for_key_blocks_until_a_press() {
    let mut keys = KeyMap::new();
    let mut cpu = Chip8::new();
    cpu.load_rom(&[0xF0, 0x0A], false);
    cpu.step(&keys).unwrap();
    assert_eq!(cpu.program_counter(), 0x200); // still waiting
    cpu.step(&keys).unwrap();
    assert_eq!(cpu.program_counter(), 0x200);
    keys.add_key(0xB);
    cpu.step(&keys).unwrap();
    assert_eq!(cpu.program_counter(), 0x202);
    assert_eq!(cpu.register(0), 0xB);
}

#[test]
fn clear_screen_blanks_every_pixel() {
    // Draw the 5-row font digit 0 at (0, 0), then clear.
    let (mut cpu, keys) = boot(&[0xA0, 0x00, 0xD0, 0x05, 0x00, 0xE0]);
    cpu.step(&keys).unwrap();
    cpu.step(&keys).unwrap();
    assert!(cpu.display.get(0, 0));
    cpu.step(&keys).unwrap();
    for y in 0..32 {
        for x in 0..64 {
            assert!(!cpu.display.get(x, y));
        }
    }
}

#[test]
fn draw_font_digit_and_collision_flag() {
    // Draw digit 0 (F0 90 90 90 F0) at (0, 0): no collision; draw again:
    // every pixel erased, collision reported.
    let (mut cpu, keys) = boot(&[0xA0, 0x00, 0xD0, 0x05, 0xD0, 0x05]);
    cpu.step(&keys).unwrap();
    cpu.step(&keys).unwrap();
    assert_eq!(cpu.register(15), 0);
    // Row 0 of the digit is 0xF0: pixels 0..4 on, 4..8 off.
    assert!(cpu.display.get(0, 0));
    assert!(cpu.display.get(3, 0));
    assert!(!cpu.display.get(4, 0));
    // Row 1 is 0x90.
    assert!(cpu.display.get(0, 1));
    assert!(!cpu.display.get(1, 1));
    assert!(cpu.display.get(3, 1));
    cpu.step(&keys).unwrap();
    assert_eq!(cpu.register(15), 1);
    assert!(!cpu.display.get(0, 0));
}

#[test]
fn rom_loads_at_normal_offset() {
    let (cpu, _) = boot(&[0xAB, 0xCD]);
    assert_eq!(cpu.program_counter(), 0x200);
    assert_eq!(cpu.ram_at(0x200), 0xAB);
    assert_eq!(cpu.ram_at(0x201), 0xCD);
}

#[test]
fn rom_loads_at_eti_offset() {
    let mut cpu = Chip8::new();
    cpu.load_rom(&[0xAB, 0xCD], true);
    assert_eq!(cpu.program_counter(), 0x600);
    assert_eq!(cpu.ram_at(0x600), 0xAB);
    assert_eq!(cpu.ram_at(0x601), 0xCD);
}

#[test]
fn font_is_preloaded() {
    let cpu = Chip8::new();
    // Digit 0 sprite at address 0.
    let zero = [0xF0, 0x90, 0x90, 0x90, 0xF0];
    for (k, byte) in zero.iter().enumerate() {
        assert_eq!(cpu.ram_at(k), *byte);
    }
    // Digit F sprite at address 75.
    let f = [0xF0, 0x80, 0xF0, 0x80, 0x80];
    for (k, byte) in f.iter().enumerate() {
        assert_eq!(cpu.ram_at(75 + k), *byte);
    }
    // Beyond the font everything is zero.
    assert_eq!(cpu.ram_at(80), 0);
    assert_eq!(cpu.ram_at(0x1FF), 0);
}

#[test]
fn program_counter_wraps_at_end_of_memory() {
    // Jump to 0xFFE, where memory holds zeros: a legacy system call that
    // advances the program counter, wrapping it to 0.
    let (mut cpu, keys) = boot(&[0x1F, 0xFE]);
    cpu.step(&keys).unwrap();
    assert_eq!(cpu.program_counter(), 0xFFE);
    cpu.step(&keys).unwrap();
    assert_eq!(cpu.program_counter(), 0);
}

#[test]
fn bcd_addresses_wrap_at_end_of_memory() {
    // I = 0xFFF: the digits of V0 = 255 land at 0xFFF, 0x000, 0x001.
    let (mut cpu, keys) = boot(&[0x60, 0xFF, 0xAF, 0xFF, 0xF0, 0x33]);
    cpu.step(&keys).unwrap();
    cpu.step(&keys).unwrap();
    cpu.step(&keys).unwrap();
    assert_eq!(cpu.ram_at(0xFFF), 2);
    assert_eq!(cpu.ram_at(0x000), 5);
    assert_eq!(cpu.ram_at(0x001), 5);
}

#[test]
fn registers_put_get() {
    let mut regs = Registers::new();
    for x in 0..16 {
        assert_eq!(regs.get(x), 0);
    }
    regs.put(7, 0x42);
    assert_eq!(regs.get(7), 0x42);
    assert_eq!(regs.get(6), 0);
    regs.put(15, 0x01);
    assert_eq!(regs.get(15), 0x01);
}

#[test]
fn debug_flag_setting_keeps_state() {
    let (mut cpu, keys) = boot(&[0x60, 0x09]);
    cpu.set_debug_output(true);
    cpu.step(&keys).unwrap();
    assert_eq!(cpu.register(0), 9);
}
