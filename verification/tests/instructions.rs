use chip8_engine::machine::Chip8;
use chip8_engine::model::Chip8Error;

fn fresh() -> Chip8 {
    Chip8::new()
}

#[test]
fn clear_screen_zeroes_framebuffer() {
    let mut m = fresh();
    // Draw the glyph for 0 (font at address 0) so some pixels are set.
    m.execute(0xA000).unwrap();
    m.execute(0xD005).unwrap();
    assert_eq!(m.get_display()[0], 1);
    m.execute(0x00E0).unwrap();
    let display = m.get_display();
    for p in 0..(64 * 32) {
        assert_eq!(display[p], 0);
    }
}

#[test]
fn jump_sets_pc() {
    let mut m = fresh();
    m.execute(0x1ABC).unwrap();
    assert_eq!(m.get_pc(), 0xABC);
}

#[test]
fn call_and_return_round_trip() {
    let mut m = fresh();
    let rom = vec![0x23, 0x00]; // call 0x300
    m.load_rom(&rom).unwrap();
    m.tick().unwrap();
    assert_eq!(m.get_pc(), 0x300);
    assert_eq!(m.stack_depth(), 1);
    m.execute(0x00EE).unwrap();
    assert_eq!(m.get_pc(), 514); // instruction after the call
    assert_eq!(m.stack_depth(), 0);
}

#[test]
fn seventeenth_nested_call_overflows() {
    let mut m = fresh();
    for depth in 1..=16 {
        assert_eq!(m.execute(0x2300), Ok(()));
        assert_eq!(m.stack_depth(), depth);
    }
    assert_eq!(m.execute(0x2300), Err(Chip8Error::CallStackOverflow));
    assert_eq!(m.stack_depth(), 16);
}

#[test]
fn return_on_empty_stack_underflows() {
    let mut m = fresh();
    assert_eq!(m.execute(0x00EE), Err(Chip8Error::CallStackUnderflow));
}

#[test]
fn skip_if_equal_immediate() {
    let mut m = fresh();
    m.execute(0x6442).unwrap(); // V4 = 0x42
    let pc = m.get_pc();
    m.execute(0x3442).unwrap(); // equal: skip
    assert_eq!(m.get_pc(), pc + 2);
    m.execute(0x3441).unwrap(); // not equal: no skip
    assert_eq!(m.get_pc(), pc + 2);
}

#[test]
fn skip_if_not_equal_immediate() {
    let mut m = fresh();
    m.execute(0x6442).unwrap();
    let pc = m.get_pc();
    m.execute(0x4442).unwrap(); // equal: no skip
    assert_eq!(m.get_pc(), pc);
    m.execute(0x4441).unwrap(); // not equal: skip
    assert_eq!(m.get_pc(), pc + 2);
}

#[test]
fn skip_on_register_compare() {
    let mut m = fresh();
    m.execute(0x6407).unwrap();
    m.execute(0x6507).unwrap();
    m.execute(0x6608).unwrap();
    let pc = m.get_pc();
    m.execute(0x5450).unwrap(); // V4 == V5: skip
    assert_eq!(m.get_pc(), pc + 2);
    m.execute(0x5460).unwrap(); // V4 != V6: no skip
    assert_eq!(m.get_pc(), pc + 2);
    m.execute(0x9460).unwrap(); // V4 != V6: skip
    assert_eq!(m.get_pc(), pc + 4);
    m.execute(0x9450).unwrap(); // V4 == V5: no skip
    assert_eq!(m.get_pc(), pc + 4);
}

#[test]
fn load_and_copy_registers() {
    let mut m = fresh();
    m.execute(0x6A5C).unwrap();
    assert_eq!(m.get_register(0xA), 0x5C);
    m.execute(0x8BA0).unwrap();
    assert_eq!(m.get_register(0xB), 0x5C);
}

#[test]
fn add_immediate_wraps_and_keeps_flag() {
    let mut m = fresh();
    m.execute(0x6F01).unwrap(); // VF = 1 beforehand
    m.execute(0x61C8).unwrap(); // V1 = 200
    m.execute(0x71C8).unwrap(); // V1 += 200, wraps, no flag write
    assert_eq!(m.get_register(1), 144);
    assert_eq!(m.get_register(0xF), 1);
}

#[test]
fn bitwise_or_and_xor() {
    let mut m = fresh();
    m.execute(0x60F0).unwrap();
    m.execute(0x610F).unwrap();
    m.execute(0x8011).unwrap(); // or
    assert_eq!(m.get_register(0), 0xFF);
    m.execute(0x603C).unwrap();
    m.execute(0x610F).unwrap();
    m.execute(0x8012).unwrap(); // and
    assert_eq!(m.get_register(0), 0x0C);
    m.execute(0x60FF).unwrap();
    m.execute(0x610F).unwrap();
    m.execute(0x8013).unwrap(); // xor
    assert_eq!(m.get_register(0), 0xF0);
}

#[test]
fn add_register_sets_carry_exactly_on_overflow() {
    let mut m = fresh();
    m.execute(0x60C8).unwrap(); // V0 = 200
    m.execute(0x6164).unwrap(); // V1 = 100
    m.execute(0x8014).unwrap();
    assert_eq!(m.get_register(0), 44);
    assert_eq!(m.get_register(0xF), 1);
    m.execute(0x6001).unwrap();
    m.execute(0x6102).unwrap();
    m.execute(0x8014).unwrap();
    assert_eq!(m.get_register(0), 3);
    assert_eq!(m.get_register(0xF), 0);
}

#[test]
fn overflowing_add_of_ff_and_01() {
    let mut m = fresh();
    m.execute(0x60FF).unwrap();
    m.execute(0x6101).unwrap();
    m.execute(0x8014).unwrap();
    assert_eq!(m.get_register(0), 0x00);
    assert_eq!(m.get_register(0xF), 1);
}

#[test]
fn subtract_flags_not_borrow() {
    let mut m = fresh();
    m.execute(0x6005).unwrap();
    m.execute(0x6103).unwrap();
    m.execute(0x8015).unwrap(); // V0 = V0 - V1
    assert_eq!(m.get_register(0), 2);
    assert_eq!(m.get_register(0xF), 1);
    m.execute(0x6003).unwrap();
    m.execute(0x6105).unwrap();
    m.execute(0x8015).unwrap();
    assert_eq!(m.get_register(0), 254);
    assert_eq!(m.get_register(0xF), 0);
}

#[test]
fn reverse_subtract_flags_not_borrow() {
    let mut m = fresh();
    m.execute(0x6003).unwrap();
    m.execute(0x6105).unwrap();
    m.execute(0x8017).unwrap(); // V0 = V1 - V0
    assert_eq!(m.get_register(0), 2);
    assert_eq!(m.get_register(0xF), 1);
    m.execute(0x6005).unwrap();
    m.execute(0x6103).unwrap();
    m.execute(0x8017).unwrap();
    assert_eq!(m.get_register(0), 254);
    assert_eq!(m.get_register(0xF), 0);
}

#[test]
fn shift_right_keeps_low_bit_in_flag() {
    let mut m = fresh();
    m.execute(0x6205).unwrap();
    m.execute(0x8206).unwrap();
    assert_eq!(m.get_register(2), 2);
    assert_eq!(m.get_register(0xF), 1);
    m.execute(0x6204).unwrap();
    m.execute(0x8206).unwrap();
    assert_eq!(m.get_register(2), 2);
    assert_eq!(m.get_register(0xF), 0);
}

#[test]
fn shift_left_keeps_high_bit_in_flag() {
    let mut m = fresh();
    m.execute(0x6281).unwrap();
    m.execute(0x820E).unwrap();
    assert_eq!(m.get_register(2), 2);
    assert_eq!(m.get_register(0xF), 1);
    m.execute(0x6240).unwrap();
    m.execute(0x820E).unwrap();
    assert_eq!(m.get_register(2), 0x80);
    assert_eq!(m.get_register(0xF), 0);
}

#[test]
fn set_index_and_jump_plus_v0() {
    let mut m = fresh();
    m.execute(0xA123).unwrap();
    assert_eq!(m.get_index(), 0x123);
    m.execute(0x6005).unwrap();
    m.execute(0xB300).unwrap();
    assert_eq!(m.get_pc(), 0x305);
}

#[test]
fn add_to_index() {
    let mut m = fresh();
    m.execute(0xA100).unwrap();
    m.execute(0x6022).unwrap();
    m.execute(0xF01E).unwrap();
    assert_eq!(m.get_index(), 0x122);
}

#[test]
fn random_masked_with_zero_is_zero() {
    let mut m = fresh();
    m.execute(0x6501).unwrap(); // V5 = 1 so the write is visible
    m.execute(0xC500).unwrap(); // random byte masked with 0x00
    assert_eq!(m.get_register(5), 0);
}

#[test]
fn random_with_injected_byte_is_masked() {
    let mut m = fresh();
    m.execute_with(0xC3AA, 0x5F).unwrap();
    assert_eq!(m.get_register(3), 0x5F & 0xAA);
}

#[test]
fn glyph_address_is_five_bytes_per_digit() {
    let mut m = fresh();
    m.execute(0x630A).unwrap(); // V3 = 0xA
    m.execute(0xF329).unwrap();
    assert_eq!(m.get_index(), 50);
    // The glyph rows for digit 0 start at address 0.
    m.execute(0x6300).unwrap();
    m.execute(0xF329).unwrap();
    assert_eq!(m.get_index(), 0);
}

#[test]
fn bcd_of_156() {
    let mut m = fresh();
    m.execute(0x659C).unwrap(); // V5 = 156
    m.execute(0xA300).unwrap();
    m.execute(0xF533).unwrap();
    assert_eq!(m.read_byte(0x300), 1);
    assert_eq!(m.read_byte(0x301), 5);
    assert_eq!(m.read_byte(0x302), 6);
}

#[test]
fn bcd_past_end_of_memory_faults() {
    let mut m = fresh();
    m.execute(0xAFFE).unwrap(); // memory has no room for three digits
    assert_eq!(m.execute(0xF033), Err(Chip8Error::MemoryOutOfBounds));
}

#[test]
fn store_and_load_registers_round_trip() {
    let mut m = fresh();
    m.execute(0x6011).unwrap();
    m.execute(0x6122).unwrap();
    m.execute(0x6233).unwrap();
    m.execute(0xA400).unwrap();
    m.execute(0xF255).unwrap(); // store V0..V2 at 0x400
    assert_eq!(m.read_byte(0x400), 0x11);
    assert_eq!(m.read_byte(0x401), 0x22);
    assert_eq!(m.read_byte(0x402), 0x33);
    m.execute(0x6000).unwrap();
    m.execute(0x6100).unwrap();
    m.execute(0x6200).unwrap();
    m.execute(0xF265).unwrap(); // load them back
    assert_eq!(m.get_register(0), 0x11);
    assert_eq!(m.get_register(1), 0x22);
    assert_eq!(m.get_register(2), 0x33);
}

#[test]
fn store_registers_past_end_of_memory_faults() {
    let mut m = fresh();
    m.execute(0xAFFF).unwrap();
    assert_eq!(m.execute(0xF255), Err(Chip8Error::MemoryOutOfBounds));
    assert_eq!(m.execute(0xF265), Err(Chip8Error::MemoryOutOfBounds));
}

#[test]
fn draw_glyph_and_collision_round_trip() {
    let mut m = fresh();
    // Draw the 0 glyph (rows F0 90 90 90 F0) at (0, 0).
    m.execute(0xA000).unwrap();
    m.execute(0xD015).unwrap();
    let display = m.get_display();
    // Top row 0xF0: four pixels on, four off.
    assert_eq!(&display[0..8], &[1, 1, 1, 1, 0, 0, 0, 0]);
    // Second row 0x90.
    assert_eq!(&display[64..72], &[1, 0, 0, 1, 0, 0, 0, 0]);
    assert_eq!(m.get_register(0xF), 0);
    // Drawing the same sprite again erases it and reports the collision.
    m.execute(0xD015).unwrap();
    assert_eq!(m.get_register(0xF), 1);
    let display = m.get_display();
    for p in 0..(64 * 32) {
        assert_eq!(display[p], 0);
    }
}

#[test]
fn draw_wraps_around_screen_edges() {
    let mut m = fresh();
    m.execute(0xA000).unwrap(); // glyph 0, top row 0xF0
    m.execute(0x603E).unwrap(); // V0 = 62
    m.execute(0x611F).unwrap(); // V1 = 31
    m.execute(0xD012).unwrap(); // two rows at (62, 31): wraps both axes
    let display = m.get_display();
    // Row 31 holds 0xF0 at columns 62, 63, 0, 1.
    assert_eq!(display[31 * 64 + 62], 1);
    assert_eq!(display[31 * 64 + 63], 1);
    assert_eq!(display[31 * 64 + 0], 1);
    assert_eq!(display[31 * 64 + 1], 1);
    // Row 0 holds 0x90: bits at columns 62 and 1.
    assert_eq!(display[62], 1);
    assert_eq!(display[63], 0);
    assert_eq!(display[0], 0);
    assert_eq!(display[1], 1);
}

#[test]
fn draw_reading_past_end_of_memory_faults() {
    let mut m = fresh();
    m.execute(0xAFFD).unwrap();
    assert_eq!(m.execute(0xD005), Err(Chip8Error::MemoryOutOfBounds));
}

#[test]
fn skip_on_key_state() {
    let mut m = fresh();
    m.execute(0x6004).unwrap(); // V0 names key 4
    m.set_keypad(4, true);
    let pc = m.get_pc();
    m.execute(0xE09E).unwrap(); // pressed: skip
    assert_eq!(m.get_pc(), pc + 2);
    m.execute(0xE0A1).unwrap(); // pressed: no skip
    assert_eq!(m.get_pc(), pc + 2);
    m.set_keypad(4, false);
    m.execute(0xE09E).unwrap(); // released: no skip
    assert_eq!(m.get_pc(), pc + 2);
    m.execute(0xE0A1).unwrap(); // released: skip
    assert_eq!(m.get_pc(), pc + 4);
}

#[test]
fn key_value_beyond_pad_counts_as_not_pressed() {
    let mut m = fresh();
    m.execute(0x6020).unwrap(); // V0 = 32: no such key
    let pc = m.get_pc();
    m.execute(0xE09E).unwrap();
    assert_eq!(m.get_pc(), pc);
    m.execute(0xE0A1).unwrap();
    assert_eq!(m.get_pc(), pc + 2);
}

#[test]
fn wait_key_busy_waits_until_a_key_comes() {
    let mut m = fresh();
    let rom = vec![0xF3, 0x0A]; // V3 = wait for key
    m.load_rom(&rom).unwrap();
    m.tick().unwrap();
    assert_eq!(m.get_pc(), 512); // rewound: same instruction again
    m.tick().unwrap();
    assert_eq!(m.get_pc(), 512);
    m.set_keypad(7, true);
    m.tick().unwrap();
    assert_eq!(m.get_pc(), 514);
    assert_eq!(m.get_register(3), 7);
}

#[test]
fn wait_key_takes_lowest_pressed_key() {
    let mut m = fresh();
    m.set_keypad(9, true);
    m.set_keypad(2, true);
    m.execute(0xF00A).unwrap();
    assert_eq!(m.get_register(0), 2);
}

#[test]
fn delay_timer_read_and_write() {
    let mut m = fresh();
    m.execute(0x6305).unwrap();
    m.execute(0xF315).unwrap(); // delay = V3 = 5
    assert_eq!(m.get_delay_timer(), 5);
    m.execute(0xF707).unwrap(); // V7 = delay
    assert_eq!(m.get_register(7), 5);
}

#[test]
fn unknown_opcodes_are_no_ops() {
    let mut m = fresh();
    let pc = m.get_pc();
    assert_eq!(m.execute(0x0123), Ok(())); // 0nnn system jump: not supported
    assert_eq!(m.execute(0x5451), Ok(())); // 5xy1: no such instruction
    assert_eq!(m.execute(0x8458), Ok(()));
    assert_eq!(m.execute(0xE0FF), Ok(()));
    assert_eq!(m.execute(0xF0FF), Ok(()));
    assert_eq!(m.get_pc(), pc);
    assert_eq!(m.get_register(4), 0);
    assert_eq!(m.stack_depth(), 0);
}
