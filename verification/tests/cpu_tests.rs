use chip8::cpu::{Chip8Error, Cpu, PROGRAM_CAPACITY, PROGRAM_START};

/// Execute one opcode that must succeed, with a fixed random byte.
fn run(cpu: &mut Cpu, opcode: u16) {
    assert!(cpu.execute_opcode(opcode, 0).is_ok());
}

#[test]
fn new_cpu_initial_state() {
    let cpu = Cpu::new();
    assert_eq!(cpu.program_counter, PROGRAM_START);
    assert_eq!(cpu.stack_pointer, 0);
    assert_eq!(cpu.index_register, 0);
    assert_eq!(cpu.delay_timer, 0);
    assert_eq!(cpu.sound_timer, 0);
    for i in 0..16 {
        assert_eq!(cpu.registers[i], 0);
    }
    // Font glyph for 0 sits at the bottom of memory.
    assert_eq!(cpu.memory[0], 0xF0);
    assert_eq!(cpu.memory[1], 0x90);
    assert_eq!(cpu.memory[4], 0xF0);
    // Glyph for F.
    assert_eq!(cpu.memory[75], 0xF0);
    assert_eq!(cpu.memory[79], 0x80);
    // Program space is zeroed.
    assert_eq!(cpu.memory[0x200], 0);
    assert_eq!(cpu.memory[0xFFF], 0);
}

#[test]
fn load_imm_and_pc_advance() {
    let mut cpu = Cpu::new();
    run(&mut cpu, 0x6A42);
    assert_eq!(cpu.registers[0xA], 0x42);
    assert_eq!(cpu.program_counter, 0x202);
}

#[test]
fn add_imm_wraps_without_flag() {
    let mut cpu = Cpu::new();
    run(&mut cpu, 0x60FF);
    run(&mut cpu, 0x7002);
    assert_eq!(cpu.registers[0], 1);
    assert_eq!(cpu.registers[0xF], 0);
}

#[test]
fn add_reg_with_carry() {
    let mut cpu = Cpu::new();
    run(&mut cpu, 0x60C8); // reg0 = 200
    run(&mut cpu, 0x6164); // reg1 = 100
    run(&mut cpu, 0x8014); // reg0 += reg1
    assert_eq!(cpu.registers[0], 44); // (200 + 100) mod 256
    assert_eq!(cpu.registers[0xF], 1);
}

#[test]
fn add_reg_without_carry() {
    let mut cpu = Cpu::new();
    run(&mut cpu, 0x6005);
    run(&mut cpu, 0x6103);
    run(&mut cpu, 0x8014);
    assert_eq!(cpu.registers[0], 8);
    assert_eq!(cpu.registers[0xF], 0);
}

#[test]
fn sub_reg_no_borrow_sets_flag() {
    let mut cpu = Cpu::new();
    run(&mut cpu, 0x600A); // reg0 = 10
    run(&mut cpu, 0x6103); // reg1 = 3
    run(&mut cpu, 0x8015); // reg0 -= reg1
    assert_eq!(cpu.registers[0], 7);
    assert_eq!(cpu.registers[0xF], 1);
}

#[test]
fn sub_reg_borrow_clears_flag() {
    let mut cpu = Cpu::new();
    run(&mut cpu, 0x6003); // reg0 = 3
    run(&mut cpu, 0x610A); // reg1 = 10
    run(&mut cpu, 0x8015);
    assert_eq!(cpu.registers[0], 249); // (3 - 10) mod 256
    assert_eq!(cpu.registers[0xF], 0);
}

#[test]
fn subn_reg_reverse_subtraction() {
    let mut cpu = Cpu::new();
    run(&mut cpu, 0x6003); // reg0 = 3
    run(&mut cpu, 0x610A); // reg1 = 10
    run(&mut cpu, 0x8017); // reg0 = reg1 - reg0
    assert_eq!(cpu.registers[0], 7);
    assert_eq!(cpu.registers[0xF], 1);
    run(&mut cpu, 0x6214); // reg2 = 20
    run(&mut cpu, 0x8217); // reg2 = reg1 - reg2 = 10 - 20
    assert_eq!(cpu.registers[2], 246);
    assert_eq!(cpu.registers[0xF], 0);
}

#[test]
fn shr_flag_is_low_bit() {
    let mut cpu = Cpu::new();
    run(&mut cpu, 0x6005); // reg0 = 0b0000_0101
    run(&mut cpu, 0x8006); // reg0 >>= 1
    assert_eq!(cpu.registers[0xF], 1);
    assert_eq!(cpu.registers[0], 0b0000_0010);
    run(&mut cpu, 0x8006);
    assert_eq!(cpu.registers[0xF], 0);
    assert_eq!(cpu.registers[0], 0b0000_0001);
}

#[test]
fn shl_flag_is_high_bit() {
    let mut cpu = Cpu::new();
    run(&mut cpu, 0x6081); // reg0 = 0b1000_0001
    run(&mut cpu, 0x800E); // reg0 <<= 1
    assert_eq!(cpu.registers[0xF], 1);
    assert_eq!(cpu.registers[0], 0b0000_0010);
    run(&mut cpu, 0x800E);
    assert_eq!(cpu.registers[0xF], 0);
    assert_eq!(cpu.registers[0], 0b0000_0100);
}

#[test]
fn move_or_and_xor() {
    let mut cpu = Cpu::new();
    run(&mut cpu, 0x60F0);
    run(&mut cpu, 0x610F);
    run(&mut cpu, 0x8210); // reg2 = reg1
    assert_eq!(cpu.registers[2], 0x0F);
    run(&mut cpu, 0x8011); // reg0 |= reg1
    assert_eq!(cpu.registers[0], 0xFF);
    run(&mut cpu, 0x8012); // reg0 &= reg1
    assert_eq!(cpu.registers[0], 0x0F);
    run(&mut cpu, 0x8013); // reg0 ^= reg1
    assert_eq!(cpu.registers[0], 0x00);
}

#[test]
fn skip_instructions() {
    let mut cpu = Cpu::new();
    run(&mut cpu, 0x6007); // reg0 = 7, pc 0x202
    run(&mut cpu, 0x3007); // equal: skip, pc 0x206
    assert_eq!(cpu.program_counter, 0x206);
    run(&mut cpu, 0x3008); // not equal: no skip, pc 0x208
    assert_eq!(cpu.program_counter, 0x208);
    run(&mut cpu, 0x4008); // not equal: skip, pc 0x20C
    assert_eq!(cpu.program_counter, 0x20C);
    run(&mut cpu, 0x6107); // reg1 = 7
    run(&mut cpu, 0x5010); // reg0 == reg1: skip
    assert_eq!(cpu.program_counter, 0x212);
    run(&mut cpu, 0x9010); // reg0 != reg1 is false: no skip
    assert_eq!(cpu.program_counter, 0x214);
    run(&mut cpu, 0x6206); // reg2 = 6
    run(&mut cpu, 0x9020); // reg0 != reg2: skip
    assert_eq!(cpu.program_counter, 0x21A);
}

#[test]
fn jump_and_jump_plus() {
    let mut cpu = Cpu::new();
    run(&mut cpu, 0x1300);
    assert_eq!(cpu.program_counter, 0x300);
    run(&mut cpu, 0x6005); // reg0 = 5
    run(&mut cpu, 0xB400); // jump to 0x400 + reg0
    assert_eq!(cpu.program_counter, 0x405);
}

#[test]
fn call_then_ret_returns_past_the_call() {
    let mut cpu = Cpu::new();
    run(&mut cpu, 0x2300); // call 0x300 from 0x200
    assert_eq!(cpu.program_counter, 0x300);
    assert_eq!(cpu.stack_pointer, 1);
    assert_eq!(cpu.stack[0], 0x202);
    run(&mut cpu, 0x00EE); // return
    assert_eq!(cpu.program_counter, 0x202);
    assert_eq!(cpu.stack_pointer, 0);
}

#[test]
fn sixteen_calls_succeed_seventeenth_overflows() {
    let mut cpu = Cpu::new();
    for _ in 0..16 {
        assert!(cpu.execute_opcode(0x2300, 0).is_ok());
    }
    assert_eq!(cpu.stack_pointer, 16);
    let pc_before = cpu.program_counter;
    let r = cpu.execute_opcode(0x2300, 0);
    assert_eq!(r, Err(Chip8Error::StackOverflow));
    // Nothing changed on the failed call.
    assert_eq!(cpu.stack_pointer, 16);
    assert_eq!(cpu.program_counter, pc_before);
}

#[test]
fn ret_without_call_underflows() {
    let mut cpu = Cpu::new();
    let r = cpu.execute_opcode(0x00EE, 0);
    assert_eq!(r, Err(Chip8Error::StackUnderflow));
    assert_eq!(cpu.program_counter, 0x200);
    assert_eq!(cpu.stack_pointer, 0);
}

#[test]
fn unknown_opcodes_are_reported() {
    let mut cpu = Cpu::new();
    for op in [0x0000u16, 0x0300, 0x5001, 0x800F, 0x9005, 0xE000, 0xF0FF] {
        let r = cpu.execute_opcode(op, 0);
        assert_eq!(r, Err(Chip8Error::UnknownOpcode(op)));
        assert_eq!(cpu.program_counter, 0x200);
    }
}

#[test]
fn load_index_and_add_index() {
    let mut cpu = Cpu::new();
    run(&mut cpu, 0xA123);
    assert_eq!(cpu.index_register, 0x123);
    run(&mut cpu, 0x60FF); // reg0 = 255
    run(&mut cpu, 0xF01E); // index += reg0
    assert_eq!(cpu.index_register, 0x222);
}

#[test]
fn add_index_wraps_at_16_bits() {
    let mut cpu = Cpu::new();
    cpu.index_register = 0xFFFF;
    run(&mut cpu, 0x6002); // reg0 = 2
    run(&mut cpu, 0xF01E); // index += reg0
    assert_eq!(cpu.index_register, 1);
}

#[test]
fn program_counter_wraps_at_12_bits() {
    let mut cpu = Cpu::new();
    cpu.program_counter = 0xFFE;
    run(&mut cpu, 0x6000);
    assert_eq!(cpu.program_counter, 0x000);
}

#[test]
fn key_skip_masks_register_to_a_nibble() {
    let mut cpu = Cpu::new();
    run(&mut cpu, 0x6014); // reg0 = 0x14: names key 4
    cpu.keyboard.set_key(4, true);
    run(&mut cpu, 0xE09E); // key 4 down: skip
    assert_eq!(cpu.program_counter, 0x206);
}

#[test]
fn random_and_masks_the_random_byte() {
    let mut cpu = Cpu::new();
    assert!(cpu.execute_opcode(0xC0FF, 0xAB).is_ok());
    assert_eq!(cpu.registers[0], 0xAB);
    assert!(cpu.execute_opcode(0xC10F, 0xAB).is_ok());
    assert_eq!(cpu.registers[1], 0x0B);
    assert!(cpu.execute_opcode(0xC200, 0xAB).is_ok());
    assert_eq!(cpu.registers[2], 0x00);
}

#[test]
fn font_address_and_draw_with_collision_flag() {
    let mut cpu = Cpu::new();
    run(&mut cpu, 0x6000); // reg0 = digit 0
    run(&mut cpu, 0xF029); // index = glyph address of 0
    assert_eq!(cpu.index_register, 0);
    run(&mut cpu, 0x6105); // reg1 = 5 (x)
    run(&mut cpu, 0x6203); // reg2 = 3 (y)
    run(&mut cpu, 0xD125); // draw 5-row glyph at (5, 3)
    assert_eq!(cpu.registers[0xF], 0);
    // Top row of the glyph for 0 is 0xF0: four lit pixels.
    assert!(cpu.display.pixel_at(5, 3));
    assert!(cpu.display.pixel_at(8, 3));
    assert!(!cpu.display.pixel_at(9, 3));
    // Drawing the same glyph again erases it and reports the collision.
    run(&mut cpu, 0xD125);
    assert_eq!(cpu.registers[0xF], 1);
    assert!(!cpu.display.pixel_at(5, 3));
    // Clear-screen opcode runs and leaves the flag alone.
    run(&mut cpu, 0x00E0);
    assert_eq!(cpu.registers[0xF], 1);
}

#[test]
fn font_addresses_are_five_apart() {
    let mut cpu = Cpu::new();
    for d in 0..16u16 {
        let set = 0x6000 | (d & 0xFF);
        run(&mut cpu, set); // reg0 = d
        run(&mut cpu, 0xF029);
        assert_eq!(cpu.index_register, 5 * d);
    }
}

#[test]
fn bcd_stores_three_digits() {
    let mut cpu = Cpu::new();
    run(&mut cpu, 0x60FE); // reg0 = 254
    run(&mut cpu, 0xA500); // index = 0x500
    run(&mut cpu, 0xF033);
    assert_eq!(cpu.memory[0x500], 2);
    assert_eq!(cpu.memory[0x501], 5);
    assert_eq!(cpu.memory[0x502], 4);
}

#[test]
fn store_and_load_registers() {
    let mut cpu = Cpu::new();
    run(&mut cpu, 0x6011);
    run(&mut cpu, 0x6122);
    run(&mut cpu, 0x6233);
    run(&mut cpu, 0xA600); // index = 0x600
    run(&mut cpu, 0xF255); // store reg0..=reg2
    assert_eq!(cpu.memory[0x600], 0x11);
    assert_eq!(cpu.memory[0x601], 0x22);
    assert_eq!(cpu.memory[0x602], 0x33);
    assert_eq!(cpu.memory[0x603], 0);
    run(&mut cpu, 0x6000);
    run(&mut cpu, 0x6100);
    run(&mut cpu, 0x6200);
    run(&mut cpu, 0xF265); // load reg0..=reg2 back
    assert_eq!(cpu.registers[0], 0x11);
    assert_eq!(cpu.registers[1], 0x22);
    assert_eq!(cpu.registers[2], 0x33);
}

#[test]
fn timers_count_down_and_sound_signal() {
    let mut cpu = Cpu::new();
    run(&mut cpu, 0x6002); // reg0 = 2
    run(&mut cpu, 0xF015); // delay = 2
    run(&mut cpu, 0xF018); // sound = 2
    assert_eq!(cpu.delay_timer, 2);
    assert_eq!(cpu.sound_timer, 2);
    assert!(cpu.is_sounding());
    cpu.tick_timers();
    assert_eq!(cpu.delay_timer, 1);
    assert_eq!(cpu.sound_timer, 1);
    assert!(cpu.is_sounding());
    cpu.tick_timers();
    assert_eq!(cpu.delay_timer, 0);
    assert_eq!(cpu.sound_timer, 0);
    assert!(!cpu.is_sounding());
    cpu.tick_timers();
    assert_eq!(cpu.delay_timer, 0);
    assert_eq!(cpu.sound_timer, 0);
}

#[test]
fn read_delay_into_register() {
    let mut cpu = Cpu::new();
    run(&mut cpu, 0x6907); // reg9 = 7
    run(&mut cpu, 0xF915); // delay = 7
    run(&mut cpu, 0xF307); // reg3 = delay
    assert_eq!(cpu.registers[3], 7);
}

#[test]
fn key_skips() {
    let mut cpu = Cpu::new();
    run(&mut cpu, 0x6004); // reg0 = key 4
    run(&mut cpu, 0xE09E); // key 4 up: no skip
    assert_eq!(cpu.program_counter, 0x204);
    run(&mut cpu, 0xE0A1); // key 4 up: skip
    assert_eq!(cpu.program_counter, 0x208);
    cpu.keyboard.set_key(4, true);
    run(&mut cpu, 0xE09E); // key 4 down: skip
    assert_eq!(cpu.program_counter, 0x20C);
    run(&mut cpu, 0xE0A1); // key 4 down: no skip
    assert_eq!(cpu.program_counter, 0x20E);
}

#[test]
fn wait_key_blocks_until_a_key_is_down() {
    let mut cpu = Cpu::new();
    run(&mut cpu, 0xF50A); // no key down: the instruction retries
    assert_eq!(cpu.program_counter, 0x200);
    run(&mut cpu, 0xF50A);
    assert_eq!(cpu.program_counter, 0x200);
    cpu.keyboard.set_key(0xB, true);
    run(&mut cpu, 0xF50A); // key B down: stored, execution resumes
    assert_eq!(cpu.registers[5], 0xB);
    assert_eq!(cpu.program_counter, 0x202);
}

#[test]
fn wait_key_takes_the_lowest_key_down() {
    let mut cpu = Cpu::new();
    cpu.keyboard.set_key(9, true);
    cpu.keyboard.set_key(2, true);
    run(&mut cpu, 0xF00A);
    assert_eq!(cpu.registers[0], 2);
}

#[test]
fn load_program_at_capacity_succeeds() {
    let mut cpu = Cpu::new();
    let program: Vec<u8> = vec![0xAB; PROGRAM_CAPACITY];
    assert!(cpu.load_program(&program).is_ok());
    assert_eq!(cpu.memory[0x200], 0xAB);
    assert_eq!(cpu.memory[0xFFF], 0xAB);
    assert_eq!(cpu.memory[0x1FF], 0); // reserved region untouched past the font
    assert_eq!(cpu.program_counter, 0x200);
}

#[test]
fn load_program_over_capacity_is_rejected_before_anything_runs() {
    let mut cpu = Cpu::new();
    let program: Vec<u8> = vec![0xAB; PROGRAM_CAPACITY + 1];
    let r = cpu.load_program(&program);
    assert_eq!(r, Err(Chip8Error::ProgramTooLarge));
    assert_eq!(cpu.memory[0x200], 0);
    assert_eq!(cpu.memory[0xFFF], 0);
    assert_eq!(cpu.program_counter, 0x200);
}

#[test]
fn end_to_end_three_cycles() {
    let mut cpu = Cpu::new();
    let program: Vec<u8> = vec![0x60, 0x05, 0x61, 0x03, 0x80, 0x14, 0x00, 0x00];
    assert!(cpu.load_program(&program).is_ok());
    for _ in 0..3 {
        assert!(cpu.emulate_cycle(0).is_ok());
    }
    assert_eq!(cpu.registers[0], 8);
    assert_eq!(cpu.registers[0xF], 0);
    assert_eq!(cpu.program_counter, 0x206);
}

#[test]
fn emulate_cycle_reports_a_bad_word() {
    let mut cpu = Cpu::new();
    // Memory at 0x200 is zeroed, and 0x0000 matches no opcode.
    let r = cpu.emulate_cycle(0);
    assert_eq!(r, Err(Chip8Error::UnknownOpcode(0)));
    assert_eq!(cpu.program_counter, 0x200);
}

#[test]
fn read_opcode_is_big_endian() {
    let mut cpu = Cpu::new();
    let program: Vec<u8> = vec![0x12, 0x34];
    assert!(cpu.load_program(&program).is_ok());
    assert_eq!(cpu.read_opcode(), 0x1234);
}
