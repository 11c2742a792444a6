use chip8::emulators::{initialize_chip_8, Chip8, Nes};

#[test]
fn initialized_chip_8_is_zeroed() {
    let c = initialize_chip_8();
    assert_eq!(c.memory, vec![0u8; 4096]);
    assert_eq!(c.cpu_registers, vec![0u8; 16]);
    assert_eq!(c.execution_stack, vec![0u16; 16]);
    assert_eq!(c.keypad, vec![0u8; 16]);
    assert_eq!(c.graphics, vec![0u32; 2048]);
    assert_eq!(c.current_opcode, 0);
    assert_eq!(c.index_register, 0);
    assert_eq!(c.program_counter, 0);
    assert_eq!(c.stack_pointer, 0);
    assert_eq!(c.delay_timer, 0);
    assert_eq!(c.sound_timer, 0);
}

#[test]
fn chip_8_rom_bytes_land_at_0x200() {
    let mut c: Chip8 = initialize_chip_8();
    let bytes = vec![0x12, 0x34, 0x56];
    c.load_ROM(&bytes);
    assert_eq!(c.memory[0x1FF], 0);
    assert_eq!(c.memory[0x200], 0x12);
    assert_eq!(c.memory[0x201], 0x34);
    assert_eq!(c.memory[0x202], 0x56);
    assert_eq!(c.memory[0x203], 0);
}

#[test]
fn nes_placeholder_exists() {
    let _n = Nes {};
}
