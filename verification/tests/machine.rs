use chip8_engine::keys::key2btn;
use chip8_engine::machine::Chip8;
use chip8_engine::model::Chip8Error;

#[test]
fn power_on_state() {
    let m = Chip8::new();
    assert_eq!(m.get_pc(), 512);
    assert_eq!(m.get_index(), 0);
    assert_eq!(m.get_delay_timer(), 0);
    assert_eq!(m.get_sound_timer(), 0);
    assert_eq!(m.stack_depth(), 0);
    assert!(!m.sound_active());
    for i in 0..16 {
        assert_eq!(m.get_register(i), 0);
    }
    let display = m.get_display();
    assert_eq!(display.len(), 64 * 32);
    for p in 0..(64 * 32) {
        assert_eq!(display[p], 0);
    }
    // The font: glyph 0 starts with 0xF0, glyph F ends with 0x80, and
    // memory past the font up to the program area is clear.
    assert_eq!(m.read_byte(0), 0xF0);
    assert_eq!(m.read_byte(4), 0xF0);
    assert_eq!(m.read_byte(79), 0x80);
    assert_eq!(m.read_byte(80), 0);
    assert_eq!(m.read_byte(511), 0);
}

#[test]
fn load_rom_copies_image_at_start_address() {
    let mut m = Chip8::new();
    let rom = vec![0xAB, 0xCD, 0x12];
    assert_eq!(m.load_rom(&rom), Ok(()));
    assert_eq!(m.read_byte(512), 0xAB);
    assert_eq!(m.read_byte(513), 0xCD);
    assert_eq!(m.read_byte(514), 0x12);
    assert_eq!(m.read_byte(515), 0);
    // The font is untouched.
    assert_eq!(m.read_byte(0), 0xF0);
}

#[test]
fn load_rom_rejects_too_large_image() {
    let mut m = Chip8::new();
    let too_big = vec![0u8; 4096 - 512 + 1];
    assert_eq!(m.load_rom(&too_big), Err(Chip8Error::RomTooLarge));
    // A largest-size image still fits.
    let just_fits = vec![7u8; 4096 - 512];
    assert_eq!(m.load_rom(&just_fits), Ok(()));
    assert_eq!(m.read_byte(4095), 7);
}

#[test]
fn fetch_combines_big_endian_and_advances_pc() {
    let mut m = Chip8::new();
    let rom = vec![0xAB, 0xCD];
    m.load_rom(&rom).unwrap();
    let op = m.fetch().unwrap();
    assert_eq!(op, 0xAB * 256 + 0xCD);
    assert_eq!(m.get_pc(), 514);
}

#[test]
fn fetch_at_end_of_memory_faults_and_freezes() {
    let mut m = Chip8::new();
    m.execute(0x1FFF).unwrap(); // jump to the last byte
    assert_eq!(m.tick(), Err(Chip8Error::ProgramCounterOutOfBounds));
    assert_eq!(m.get_pc(), 0xFFF); // nothing moved
    assert_eq!(m.tick(), Err(Chip8Error::ProgramCounterOutOfBounds));
}

#[test]
fn tick_runs_a_two_instruction_program() {
    let mut m = Chip8::new();
    let rom = vec![0x61, 0x05, 0x71, 0x03]; // V1 = 5; V1 += 3
    m.load_rom(&rom).unwrap();
    m.tick().unwrap();
    m.tick().unwrap();
    assert_eq!(m.get_register(1), 8);
    assert_eq!(m.get_register(0xF), 0); // VF untouched
    assert_eq!(m.get_pc(), 516);
}

#[test]
fn timers_count_down_to_zero_and_stay() {
    let mut m = Chip8::new();
    m.execute(0x6005).unwrap();
    m.execute(0xF015).unwrap(); // delay = 5
    m.execute(0x6102).unwrap();
    m.execute(0xF118).unwrap(); // sound = 2
    assert!(m.sound_active());
    for expected in [4, 3, 2, 1, 0u8] {
        m.timers();
        assert_eq!(m.get_delay_timer(), expected);
    }
    m.timers(); // a sixth advance leaves it at zero
    assert_eq!(m.get_delay_timer(), 0);
    assert_eq!(m.get_sound_timer(), 0);
    assert!(!m.sound_active());
}

#[test]
fn timer_ticks_do_not_touch_other_state() {
    let mut m = Chip8::new();
    m.execute(0x6377).unwrap();
    m.execute(0xA123).unwrap();
    m.timers();
    assert_eq!(m.get_register(3), 0x77);
    assert_eq!(m.get_index(), 0x123);
    assert_eq!(m.get_pc(), 512);
}

#[test]
fn reset_restores_power_on_state() {
    let mut m = Chip8::new();
    let rom = vec![0x61, 0x05];
    m.load_rom(&rom).unwrap();
    m.tick().unwrap();
    m.execute(0xF115).unwrap();
    m.execute(0x2300).unwrap();
    m.set_keypad(3, true);
    m.reset();
    assert_eq!(m.get_pc(), 512);
    assert_eq!(m.get_register(1), 0);
    assert_eq!(m.get_delay_timer(), 0);
    assert_eq!(m.stack_depth(), 0);
    assert_eq!(m.read_byte(512), 0); // the loaded image is gone
    assert_eq!(m.read_byte(0), 0xF0); // the font is back
}

#[test]
fn set_keypad_ignores_out_of_range_key() {
    let mut m = Chip8::new();
    m.set_keypad(16, true);
    m.set_keypad(100, true);
    // No key is pressed, so the wait-key instruction busy-waits.
    let rom = vec![0xF0, 0x0A];
    m.load_rom(&rom).unwrap();
    m.tick().unwrap();
    assert_eq!(m.get_pc(), 512);
}

#[test]
fn keyboard_layout_maps_to_pad_buttons() {
    assert_eq!(key2btn('1'), Some(0x1));
    assert_eq!(key2btn('2'), Some(0x2));
    assert_eq!(key2btn('4'), Some(0xC));
    assert_eq!(key2btn('q'), Some(0x4));
    assert_eq!(key2btn('v'), Some(0xF));
    assert_eq!(key2btn('x'), Some(0x0));
    assert_eq!(key2btn('p'), None);
    assert_eq!(key2btn('5'), None);
}

#[test]
fn scenario_end_to_end_draw_program() {
    // A whole program through tick: point the index register at the
    // glyph for V2's digit, then draw it at (V0, V1).
    let mut m = Chip8::new();
    let rom = vec![
        0x60, 0x08, // V0 = 8
        0x61, 0x04, // V1 = 4
        0x62, 0x01, // V2 = 1
        0xF2, 0x29, // index = glyph of digit 1
        0xD0, 0x15, // draw 5 rows at (8, 4)
    ];
    m.load_rom(&rom).unwrap();
    for _ in 0..5 {
        m.tick().unwrap();
    }
    assert_eq!(m.get_index(), 5);
    let display = m.get_display();
    // Top row of the glyph for 1 is 0x20: a single pixel at column 2.
    assert_eq!(display[4 * 64 + 8 + 2], 1);
    assert_eq!(display[4 * 64 + 8 + 1], 0);
    assert_eq!(m.get_register(0xF), 0);
}
