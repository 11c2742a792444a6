use chip8::cpu::{Cpu, CpuError};

fn glyph(digit: usize) -> [u8; 5] {
    const FONT: [u8; 80] = [
        0xF0, 0x90, 0x90, 0x90, 0xF0, // 0
        0x20, 0x60, 0x20, 0x20, 0x70, // 1
        0xF0, 0x10, 0xF0, 0x80, 0xF0, // 2
        0xF0, 0x10, 0xF0, 0x10, 0xF0, // 3
        0x90, 0x90, 0xF0, 0x10, 0x10, // 4
        0xF0, 0x80, 0xF0, 0x10, 0xF0, // 5
        0xF0, 0x80, 0xF0, 0x90, 0xF0, // 6
        0xF0, 0x10, 0x20, 0x40, 0x40, // 7
        0xF0, 0x90, 0xF0, 0x90, 0xF0, // 8
        0xF0, 0x90, 0xF0, 0x10, 0xF0, // 9
        0xF0, 0x90, 0xF0, 0x90, 0x90, // A
        0xE0, 0x90, 0xE0, 0x90, 0xE0, // B
        0xF0, 0x80, 0x80, 0x80, 0xF0, // C
        0xE0, 0x90, 0x90, 0x90, 0xE0, // D
        0xF0, 0x80, 0xF0, 0x80, 0xF0, // E
        0xF0, 0x80, 0xF0, 0x80, 0x80, // F
    ];
    let mut g = [0u8; 5];
    g.copy_from_slice(&FONT[digit * 5..digit * 5 + 5]);
    g
}

#[test]
fn new_machine_state() {
    let c = Cpu::new();
    assert_eq!(c.program_counter, 0x200);
    assert_eq!(c.stack_pointer, 0);
    assert_eq!(c.index_register, 0);
    assert_eq!(c.delay_timer, 0);
    assert_eq!(c.sound_timer, 0);
    assert_eq!(c.current_opcode, 0);
    assert!(!c.can_draw);
    assert_eq!(c.memory.len(), 4096);
    assert_eq!(c.cpu_registers, vec![0u8; 16]);
    assert_eq!(c.execution_stack, vec![0u16; 16]);
    assert_eq!(c.keypad, vec![false; 16]);
    assert_eq!(c.graphics, vec![false; 2048]);
    for a in 0..0x50 {
        assert_eq!(c.memory[a], 0);
    }
    for a in 0xA0..4096 {
        assert_eq!(c.memory[a], 0);
    }
}

#[test]
fn fontset_in_low_memory() {
    let c = Cpu::new();
    for d in 0..16 {
        let g = glyph(d);
        for j in 0..5 {
            assert_eq!(c.memory[0x50 + 5 * d + j], g[j]);
        }
    }
}

#[test]
fn load_rom_places_bytes_at_0x200() {
    let mut c = Cpu::new();
    assert_eq!(c.load_rom(vec![0xAA, 0xBB, 0xCC]), Ok(()));
    assert_eq!(c.memory[0x200], 0xAA);
    assert_eq!(c.memory[0x201], 0xBB);
    assert_eq!(c.memory[0x202], 0xCC);
    assert_eq!(c.memory[0x203], 0x00);
}

#[test]
fn load_rom_empty_image_changes_nothing() {
    let mut c = Cpu::new();
    let before = c.memory.clone();
    assert_eq!(c.load_rom(Vec::new()), Ok(()));
    assert_eq!(c.memory, before);
}

#[test]
fn load_rom_too_large_is_refused() {
    let mut c = Cpu::new();
    assert_eq!(c.load_rom(vec![0x55; 3584]), Ok(()));
    let mut c2 = Cpu::new();
    assert_eq!(c2.load_rom(vec![0x55; 3585]), Err(CpuError::ProgramTooLarge));
    assert_eq!(c2.memory[0x200], 0);
}

#[test]
fn jump_scenario() {
    // JP 0x3C5: after one cycle only the program counter has moved.
    let mut c = Cpu::new();
    c.load_rom(vec![0x13, 0xC5]).unwrap();
    assert_eq!(c.cycle(), Ok(()));
    assert_eq!(c.program_counter, 0x3C5);
    assert_eq!(c.cpu_registers, vec![0u8; 16]);
    assert_eq!(c.stack_pointer, 0);
    assert_eq!(c.index_register, 0);
    assert_eq!(c.delay_timer, 0);
    assert_eq!(c.sound_timer, 0);
    assert_eq!(c.graphics, vec![false; 2048]);
}

#[test]
fn add_registers_with_carry() {
    // ADD V1, V2 with V1=0xFF, V2=0x01: flag set, V1 wraps to 0.
    let mut c = Cpu::new();
    c.cpu_registers[1] = 0xFF;
    c.cpu_registers[2] = 0x01;
    c.current_opcode = 0x8124;
    c.op_8xy4();
    assert_eq!(c.cpu_registers[0xF], 1);
    assert_eq!(c.cpu_registers[1], 0x00);
    assert_eq!(c.cpu_registers[2], 0x01);
}

#[test]
fn add_registers_without_carry() {
    let mut c = Cpu::new();
    c.cpu_registers[1] = 0x70;
    c.cpu_registers[2] = 0x22;
    c.current_opcode = 0x8124;
    c.op_8xy4();
    assert_eq!(c.cpu_registers[0xF], 0);
    assert_eq!(c.cpu_registers[1], 0x92);
}

#[test]
fn add_immediate_wraps_without_flag() {
    // ADD V3, 0x10 on V3=0xF8 wraps and must not touch VF.
    let mut c = Cpu::new();
    c.cpu_registers[3] = 0xF8;
    c.current_opcode = 0x7310;
    c.op_7xkk();
    assert_eq!(c.cpu_registers[3], 0x08);
    assert_eq!(c.cpu_registers[0xF], 0);
}

#[test]
fn sub_sets_flag_iff_vx_greater() {
    let mut c = Cpu::new();
    c.cpu_registers[1] = 0x05;
    c.cpu_registers[2] = 0x03;
    c.current_opcode = 0x8125;
    c.op_8xy5();
    assert_eq!(c.cpu_registers[0xF], 1);
    assert_eq!(c.cpu_registers[1], 0x02);

    c.cpu_registers[1] = 0x03;
    c.cpu_registers[2] = 0x05;
    c.op_8xy5();
    assert_eq!(c.cpu_registers[0xF], 0);
    assert_eq!(c.cpu_registers[1], 0xFE);

    // Equal values: Vx > Vy is false, flag stays 0.
    c.cpu_registers[1] = 0x07;
    c.cpu_registers[2] = 0x07;
    c.op_8xy5();
    assert_eq!(c.cpu_registers[0xF], 0);
    assert_eq!(c.cpu_registers[1], 0x00);
}

#[test]
fn subn_sets_flag_iff_vy_greater() {
    let mut c = Cpu::new();
    c.cpu_registers[1] = 0x03;
    c.cpu_registers[2] = 0x05;
    c.current_opcode = 0x8127;
    c.op_8xy7();
    assert_eq!(c.cpu_registers[0xF], 1);
    assert_eq!(c.cpu_registers[1], 0x02);

    c.cpu_registers[1] = 0x05;
    c.cpu_registers[2] = 0x03;
    c.op_8xy7();
    assert_eq!(c.cpu_registers[0xF], 0);
    assert_eq!(c.cpu_registers[1], 0xFE);
}

#[test]
fn shr_captures_low_bit() {
    let mut c = Cpu::new();
    c.cpu_registers[1] = 0x05;
    c.current_opcode = 0x8106;
    c.op_8xy6();
    assert_eq!(c.cpu_registers[0xF], 1);
    assert_eq!(c.cpu_registers[1], 0x02);

    c.cpu_registers[1] = 0x04;
    c.op_8xy6();
    assert_eq!(c.cpu_registers[0xF], 0);
    assert_eq!(c.cpu_registers[1], 0x02);
}

#[test]
fn shl_captures_high_bit() {
    let mut c = Cpu::new();
    c.cpu_registers[1] = 0x81;
    c.current_opcode = 0x810E;
    c.op_8xyE();
    assert_eq!(c.cpu_registers[0xF], 1);
    assert_eq!(c.cpu_registers[1], 0x02);

    c.cpu_registers[1] = 0x41;
    c.op_8xyE();
    assert_eq!(c.cpu_registers[0xF], 0);
    assert_eq!(c.cpu_registers[1], 0x82);
}

#[test]
fn bitwise_ops() {
    let mut c = Cpu::new();
    c.cpu_registers[1] = 0xCC;
    c.cpu_registers[2] = 0xAA;
    c.current_opcode = 0x8121;
    c.op_8xy1();
    assert_eq!(c.cpu_registers[1], 0xEE);
    c.cpu_registers[1] = 0xCC;
    c.op_8xy2();
    assert_eq!(c.cpu_registers[1], 0x88);
    c.cpu_registers[1] = 0xCC;
    c.op_8xy3();
    assert_eq!(c.cpu_registers[1], 0x66);
}

#[test]
fn skips_move_past_next_instruction() {
    // SE V1, 0x42 with V1 == 0x42 skips; SNE does not.
    let mut c = Cpu::new();
    c.cpu_registers[1] = 0x42;
    c.load_rom(vec![0x31, 0x42, 0x41, 0x42, 0x51, 0x20]).unwrap();
    assert_eq!(c.cycle(), Ok(()));
    assert_eq!(c.program_counter, 0x204); // SE skipped
    assert_eq!(c.cycle(), Ok(()));
    assert_eq!(c.program_counter, 0x206); // SNE did not skip (V1 == 0x42)
}

#[test]
fn call_and_ret_round_trip() {
    // CALL 0x300 from 0x200 pushes 0x202 and jumps; RET restores 0x202.
    let mut c = Cpu::new();
    c.load_rom(vec![0x23, 0x00]).unwrap();
    c.memory[0x300] = 0x00;
    c.memory[0x301] = 0xEE;
    assert_eq!(c.cycle(), Ok(()));
    assert_eq!(c.program_counter, 0x300);
    assert_eq!(c.stack_pointer, 1);
    assert_eq!(c.execution_stack[0], 0x202);
    assert_eq!(c.cycle(), Ok(()));
    assert_eq!(c.program_counter, 0x202);
    assert_eq!(c.stack_pointer, 0);
}

#[test]
fn sixteen_calls_then_stack_overflow() {
    // CALL 0x200 jumps back to itself: each cycle pushes one frame.
    let mut c = Cpu::new();
    c.load_rom(vec![0x22, 0x00]).unwrap();
    for _ in 0..16 {
        assert_eq!(c.cycle(), Ok(()));
    }
    assert_eq!(c.stack_pointer, 16);
    assert_eq!(c.cycle(), Err(CpuError::StackOverflow));
    assert_eq!(c.stack_pointer, 16);
}

#[test]
fn ret_with_empty_stack_underflows() {
    let mut c = Cpu::new();
    c.load_rom(vec![0x00, 0xEE]).unwrap();
    assert_eq!(c.cycle(), Err(CpuError::StackUnderflow));
}

#[test]
fn unknown_opcode_is_reported() {
    let mut c = Cpu::new();
    c.load_rom(vec![0x80, 0x08]).unwrap();
    assert_eq!(c.cycle(), Err(CpuError::UnknownOpcode));
    // The program counter stops past the offending opcode.
    assert_eq!(c.program_counter, 0x202);
}

#[test]
fn fetch_past_end_of_memory_is_out_of_bounds() {
    let mut c = Cpu::new();
    c.program_counter = 4095;
    assert_eq!(c.cycle(), Err(CpuError::OutOfBounds));
    assert_eq!(c.program_counter, 4095);
}

#[test]
fn cls_clears_screen_and_raises_redraw() {
    let mut c = Cpu::new();
    c.graphics[77] = true;
    c.current_opcode = 0x00E0;
    c.op_00E0();
    assert_eq!(c.graphics, vec![false; 2048]);
    assert!(c.can_draw);
}

#[test]
fn draw_sets_sprite_bits_and_draw_again_restores() {
    // Draw the glyph for 0 at (0, 0) on a cleared screen, twice.
    let mut c = Cpu::new();
    c.index_register = 0x50; // glyph "0"
    c.current_opcode = 0xD125; // draw 5 rows at (V1, V2) = (0, 0)
    assert_eq!(c.op_Dxyn(), Ok(()));
    assert_eq!(c.cpu_registers[0xF], 0);
    assert!(c.can_draw);
    let g = glyph(0);
    for row in 0..5 {
        for bit in 0..8 {
            let lit = (g[row] >> (7 - bit)) & 1 == 1;
            assert_eq!(c.pixel(row, bit), lit);
        }
    }
    // Second identical draw: full collision, screen restored.
    assert_eq!(c.op_Dxyn(), Ok(()));
    assert_eq!(c.cpu_registers[0xF], 1);
    assert_eq!(c.graphics, vec![false; 2048]);
}

#[test]
fn cls_then_draw_leaves_exactly_the_sprite() {
    let mut c = Cpu::new();
    // Litter the screen, then clear and draw the glyph for 7 at (8, 4).
    for p in (0..2048).step_by(3) {
        c.graphics[p] = true;
    }
    c.current_opcode = 0x00E0;
    c.op_00E0();
    c.index_register = 0x50 + 5 * 7;
    c.cpu_registers[1] = 8;
    c.cpu_registers[2] = 4;
    c.current_opcode = 0xD125;
    assert_eq!(c.op_Dxyn(), Ok(()));
    let g = glyph(7);
    let mut expected = vec![false; 2048];
    for row in 0..5 {
        for bit in 0..8 {
            if (g[row] >> (7 - bit)) & 1 == 1 {
                expected[(4 + row) * 64 + 8 + bit] = true;
            }
        }
    }
    assert_eq!(c.graphics, expected);
}

#[test]
fn draw_anchors_wrap_and_overhang_clips() {
    // Anchor (62, 31): only the top row's two leftmost visible bits fit.
    let mut c = Cpu::new();
    c.memory[0x700] = 0xFF;
    c.memory[0x701] = 0xFF;
    c.index_register = 0x700;
    c.cpu_registers[1] = 62 + 64; // wraps to 62
    c.cpu_registers[2] = 31 + 32; // wraps to 31
    c.current_opcode = 0xD122;
    assert_eq!(c.op_Dxyn(), Ok(()));
    let mut lit = 0;
    for p in 0..2048 {
        if c.graphics[p] {
            lit += 1;
        }
    }
    assert_eq!(lit, 2);
    assert!(c.pixel(31, 62));
    assert!(c.pixel(31, 63));
}

#[test]
fn draw_past_memory_end_is_out_of_bounds() {
    let mut c = Cpu::new();
    c.index_register = 4093;
    c.current_opcode = 0xD125; // five rows from 4093 run past the end
    assert_eq!(c.op_Dxyn(), Err(CpuError::OutOfBounds));
    assert_eq!(c.graphics, vec![false; 2048]);
    assert!(!c.can_draw);
}

#[test]
fn font_then_register_load_reproduces_glyph() {
    // LD F, V1 with V1 = 0xA, then LD V4, [I]: V0..V4 hold the glyph.
    let mut c = Cpu::new();
    c.cpu_registers[1] = 0xA;
    c.current_opcode = 0xF129;
    c.op_Fx29();
    assert_eq!(c.index_register, 0x50 + 5 * 0xA);
    c.current_opcode = 0xF465;
    assert_eq!(c.op_Fx65(), Ok(()));
    let g = glyph(0xA);
    for j in 0..5 {
        assert_eq!(c.cpu_registers[j], g[j]);
    }
}

#[test]
fn bcd_writes_three_decimal_digits() {
    let mut c = Cpu::new();
    c.cpu_registers[3] = 254;
    c.index_register = 0x300;
    c.current_opcode = 0xF333;
    assert_eq!(c.op_Fx33(), Ok(()));
    assert_eq!(c.memory[0x300], 2);
    assert_eq!(c.memory[0x301], 5);
    assert_eq!(c.memory[0x302], 4);
}

#[test]
fn bcd_past_memory_end_is_out_of_bounds() {
    let mut c = Cpu::new();
    c.cpu_registers[0] = 7;
    c.index_register = 4094;
    c.current_opcode = 0xF033;
    assert_eq!(c.op_Fx33(), Err(CpuError::OutOfBounds));
}

#[test]
fn register_block_store_and_load_are_inclusive() {
    // LD [I], V5 stores V0..V5 — six registers, including the last.
    let mut c = Cpu::new();
    for j in 0..6 {
        c.cpu_registers[j] = 10 + j as u8;
    }
    c.index_register = 0x400;
    c.current_opcode = 0xF555;
    assert_eq!(c.op_Fx55(), Ok(()));
    for j in 0..6 {
        assert_eq!(c.memory[0x400 + j], 10 + j as u8);
    }
    assert_eq!(c.memory[0x406], 0);

    // LD VF, [I] reads all sixteen registers back, 0xF included.
    let mut c2 = Cpu::new();
    for j in 0..16 {
        c2.memory[0x400 + j] = 40 + j as u8;
    }
    c2.index_register = 0x400;
    c2.current_opcode = 0xFF65;
    assert_eq!(c2.op_Fx65(), Ok(()));
    for j in 0..16 {
        assert_eq!(c2.cpu_registers[j], 40 + j as u8);
    }
}

#[test]
fn register_block_past_memory_end_is_out_of_bounds() {
    let mut c = Cpu::new();
    c.index_register = 4090;
    c.current_opcode = 0xF755; // stores V0..V7 at 4090..4097
    assert_eq!(c.op_Fx55(), Err(CpuError::OutOfBounds));
}

#[test]
fn timers_tick_once_per_cycle_and_stop_at_zero() {
    let mut c = Cpu::new();
    // LD V0, 0x05 twice: two harmless cycles.
    c.load_rom(vec![0x60, 0x05, 0x60, 0x06]).unwrap();
    c.delay_timer = 2;
    c.sound_timer = 1;
    assert_eq!(c.cycle(), Ok(()));
    assert_eq!(c.delay_timer, 1);
    assert_eq!(c.sound_timer, 0);
    assert_eq!(c.cycle(), Ok(()));
    assert_eq!(c.delay_timer, 0);
    assert_eq!(c.sound_timer, 0);
}

#[test]
fn timer_transfers() {
    let mut c = Cpu::new();
    c.delay_timer = 0x44;
    c.current_opcode = 0xF107;
    c.op_Fx07();
    assert_eq!(c.cpu_registers[1], 0x44);
    c.cpu_registers[2] = 0x55;
    c.current_opcode = 0xF215;
    c.op_Fx15();
    assert_eq!(c.delay_timer, 0x55);
    c.cpu_registers[3] = 0x66;
    c.current_opcode = 0xF318;
    c.op_Fx18();
    assert_eq!(c.sound_timer, 0x66);
}

#[test]
fn wait_for_key_holds_and_resumes() {
    // LD V1, K: with no key down the cycle makes no net progress; with a
    // key down the key's index lands in V1 and execution proceeds.
    let mut c = Cpu::new();
    c.load_rom(vec![0xF1, 0x0A]).unwrap();
    assert_eq!(c.cycle(), Ok(()));
    assert_eq!(c.program_counter, 0x200);
    c.keypad[7] = true;
    assert_eq!(c.cycle(), Ok(()));
    assert_eq!(c.cpu_registers[1], 7);
    assert_eq!(c.program_counter, 0x202);
}

#[test]
fn wait_for_key_takes_lowest_pressed_index() {
    let mut c = Cpu::new();
    c.keypad[9] = true;
    c.keypad[3] = true;
    c.current_opcode = 0xF20A;
    c.op_Fx0A();
    assert_eq!(c.cpu_registers[2], 3);
}

#[test]
fn skp_and_sknp_follow_keypad() {
    let mut c = Cpu::new();
    c.cpu_registers[1] = 0x5;
    c.keypad[5] = true;
    c.load_rom(vec![0xE1, 0x9E, 0xE1, 0xA1]).unwrap();
    assert_eq!(c.cycle(), Ok(()));
    assert_eq!(c.program_counter, 0x204); // SKP skipped: key 5 down
    c.program_counter = 0x202;
    assert_eq!(c.cycle(), Ok(()));
    assert_eq!(c.program_counter, 0x204); // SKNP did not skip
}

#[test]
fn index_register_ops() {
    let mut c = Cpu::new();
    c.current_opcode = 0xA123;
    c.op_Annn();
    assert_eq!(c.index_register, 0x123);
    c.cpu_registers[4] = 2;
    c.current_opcode = 0xF41E;
    c.index_register = 0xFFFF;
    c.op_Fx1E();
    assert_eq!(c.index_register, 1); // 16-bit wraparound
}

#[test]
fn jump_with_offset() {
    let mut c = Cpu::new();
    c.cpu_registers[0] = 5;
    c.current_opcode = 0xB300;
    c.op_Bnnn();
    assert_eq!(c.program_counter, 0x305);
}

#[test]
fn load_immediate_and_copy() {
    let mut c = Cpu::new();
    c.current_opcode = 0x61AB;
    c.op_6xkk();
    assert_eq!(c.cpu_registers[1], 0xAB);
    c.current_opcode = 0x8210;
    c.op_8xy0();
    assert_eq!(c.cpu_registers[2], 0xAB);
}

#[test]
fn random_is_masked_by_kk() {
    // RND V1, 0x00 must give 0 whatever byte the generator drew; a
    // nonzero mask confines the set bits to the mask.
    let mut c = Cpu::new();
    c.current_opcode = 0xC100;
    c.op_Cxkk();
    assert_eq!(c.cpu_registers[1], 0);
    for _ in 0..32 {
        c.current_opcode = 0xC20F;
        c.op_Cxkk();
        assert_eq!(c.cpu_registers[2] & 0xF0, 0);
    }
}
