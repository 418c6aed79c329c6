use chippy::display_value;
use chippy::model::{StepError, StepOutcome};
use chippy::system::System;

fn run_ticks(sys: &mut System, n: usize) {
    for _ in 0..n {
        sys.tick().expect("step failed");
    }
}

#[test]
fn load_then_add_wraps() {
    // 6AFF: VA = 0xFF; 7A01: VA += 1 wrapping, no flag.
    let mut sys = System::new(&vec![0x6A, 0xFF, 0x7A, 0x01]);
    run_ticks(&mut sys, 2);
    assert_eq!(sys.reg(0xA), 0x00);
    assert_eq!(sys.reg(0xF), 0x00);
}

#[test]
fn load_then_add_plain() {
    let mut sys = System::new(&vec![0x60, 0x10, 0x70, 0x01]);
    run_ticks(&mut sys, 2);
    assert_eq!(sys.reg(0), 0x11);
    assert_eq!(sys.reg(0xF), 0x00);
}

#[test]
fn add_overflow_sets_carry() {
    // V0 = 0xFF, V1 = 0x01, 8014: V0 = 0x00 and VF = 1.
    let mut sys = System::new(&vec![0x60, 0xFF, 0x61, 0x01, 0x80, 0x14]);
    run_ticks(&mut sys, 3);
    assert_eq!(sys.reg(0), 0x00);
    assert_eq!(sys.reg(0xF), 1);
}

#[test]
fn sub_borrow_clears_flag() {
    // V0 = 0x01, V1 = 0x02, 8015: V0 = 0xFF and VF = 0 (borrow).
    let mut sys = System::new(&vec![0x60, 0x01, 0x61, 0x02, 0x80, 0x15]);
    run_ticks(&mut sys, 3);
    assert_eq!(sys.reg(0), 0xFF);
    assert_eq!(sys.reg(0xF), 0);
}

#[test]
fn shr_captures_low_bit() {
    // 8006 on V0 = 0x03: V0 = 0x01, VF = 1.
    let mut sys = System::new(&vec![0x60, 0x03, 0x80, 0x06]);
    run_ticks(&mut sys, 2);
    assert_eq!(sys.reg(0), 0x01);
    assert_eq!(sys.reg(0xF), 1);
}

#[test]
fn shl_captures_high_bit() {
    // 800E on V0 = 0x81: V0 = 0x02, VF = 1.
    let mut sys = System::new(&vec![0x60, 0x81, 0x80, 0x0E]);
    run_ticks(&mut sys, 2);
    assert_eq!(sys.reg(0), 0x02);
    assert_eq!(sys.reg(0xF), 1);
}

#[test]
fn draw_twice_toggles_off_and_collides() {
    // I = 0x206 (a 0xFF sprite row), drawn twice at (0, 0).
    let mut sys = System::new(&vec![0xA2, 0x06, 0xD0, 0x01, 0xD0, 0x01, 0xFF]);
    run_ticks(&mut sys, 2);
    for c in 0..8 {
        assert!(sys.pixel(0, c));
    }
    assert_eq!(sys.reg(0xF), 0);
    run_ticks(&mut sys, 1);
    for row in 0..32 {
        for col in 0..64 {
            assert!(!sys.pixel(row, col));
        }
    }
    assert_eq!(sys.reg(0xF), 1);
}

#[test]
fn draw_wraps_columns() {
    // V0 = 60, I = 0x206 (0xFF), draw 8 wide at column 60: columns
    // 60..=63 then 0..=3 light up.
    let mut sys = System::new(&vec![0x60, 0x3C, 0xA2, 0x06, 0xD0, 0x11, 0xFF]);
    run_ticks(&mut sys, 3);
    for c in 60..64 {
        assert!(sys.pixel(0, c));
    }
    for c in 0..4 {
        assert!(sys.pixel(0, c));
    }
    for c in 4..60 {
        assert!(!sys.pixel(0, c));
    }
    assert_eq!(sys.reg(0xF), 0);
}

#[test]
fn draw_wraps_rows() {
    // V1 = 31, I = 0x208, two sprite rows land on rows 31 and 0.
    let mut sys = System::new(&vec![
        0x61, 0x1F, 0xA2, 0x08, 0xD0, 0x12, 0x00, 0x00, 0x80, 0x80,
    ]);
    run_ticks(&mut sys, 3);
    assert!(sys.pixel(31, 0));
    assert!(sys.pixel(0, 0));
    assert!(!sys.pixel(1, 0));
    assert!(!sys.pixel(30, 0));
}

#[test]
fn skip_taken_on_equal() {
    // 6A42 then 3A42: the skip is taken, 4 past the skip address.
    let mut sys = System::new(&vec![0x6A, 0x42, 0x3A, 0x42]);
    run_ticks(&mut sys, 2);
    assert_eq!(sys.pc(), 0x200 + 6);
}

#[test]
fn skip_not_taken_on_unequal() {
    let mut sys = System::new(&vec![0x6A, 0x42, 0x3A, 0x43]);
    run_ticks(&mut sys, 2);
    assert_eq!(sys.pc(), 0x200 + 4);
}

#[test]
fn key_wait_suspends_and_resumes() {
    // V0 = 5, delay = 5, then F50A waits for a key into V5, then
    // 6107 runs after the wait resolves.
    let mut sys = System::new(&vec![0x60, 0x05, 0xF0, 0x15, 0xF5, 0x0A, 0x61, 0x07]);
    let none: Vec<u8> = vec![];
    sys.frame(&none).expect("step failed");
    sys.frame(&none).expect("step failed");
    assert_eq!(sys.delay_timer(), 5);
    sys.frame(&none).expect("step failed");
    assert_eq!(sys.delay_timer(), 4);
    assert!(sys.is_waiting_for_key());
    let pc_waiting = sys.pc();
    // Two idle ticks: nothing moves at all.
    assert_eq!(sys.frame(&none), Ok(StepOutcome::Waiting));
    assert_eq!(sys.frame(&none), Ok(StepOutcome::Waiting));
    assert_eq!(sys.delay_timer(), 4);
    assert_eq!(sys.pc(), pc_waiting);
    assert!(sys.is_waiting_for_key());
    // The resolving tick: key lands in V5, still no timer decrement.
    assert_eq!(sys.frame(&vec![9]), Ok(StepOutcome::KeyInserted(9)));
    assert_eq!(sys.reg(5), 9);
    assert_eq!(sys.delay_timer(), 4);
    assert_eq!(sys.pc(), pc_waiting);
    assert!(!sys.is_waiting_for_key());
    // Normal stepping resumes on the next tick.
    sys.frame(&none).expect("step failed");
    assert_eq!(sys.reg(1), 7);
    assert_eq!(sys.delay_timer(), 3);
}

#[test]
fn pc_round_trip_straight_line() {
    let mut sys = System::new(&vec![0x60, 0x01, 0x61, 0x02, 0x62, 0x03, 0x63, 0x04]);
    run_ticks(&mut sys, 4);
    assert_eq!(sys.pc(), 0x200 + 8);
}

#[test]
fn return_on_empty_stack_is_reported() {
    let mut sys = System::new(&vec![0x00, 0xEE]);
    assert_eq!(sys.tick(), Err(StepError::StackUnderflow));
    assert_eq!(sys.pc(), 0x200);
}

#[test]
fn seventeenth_nested_call_overflows() {
    // 2200 calls address 0x200 over and over.
    let mut sys = System::new(&vec![0x22, 0x00]);
    for _ in 0..16 {
        assert_eq!(sys.tick(), Ok(StepOutcome::Executed));
    }
    assert_eq!(sys.stack_depth(), 16);
    assert_eq!(sys.tick(), Err(StepError::StackOverflow));
    assert_eq!(sys.stack_depth(), 16);
}

#[test]
fn jump_to_memory_end_is_reported() {
    let mut sys = System::new(&vec![0x1F, 0xFF]);
    assert_eq!(sys.tick(), Ok(StepOutcome::Executed));
    assert_eq!(sys.pc(), 0xFFF);
    assert_eq!(sys.tick(), Err(StepError::PcOutOfBounds));
    assert_eq!(sys.pc(), 0xFFF);
}

#[test]
fn store_past_memory_end_is_reported() {
    // I = 0xFFF, then F155 would write 0xFFF and 0x1000.
    let mut sys = System::new(&vec![0xAF, 0xFF, 0xF1, 0x55]);
    assert_eq!(sys.tick(), Ok(StepOutcome::Executed));
    assert_eq!(sys.tick(), Err(StepError::MemoryOutOfBounds));
}

#[test]
fn key_test_of_bad_register_value_is_reported() {
    // V0 = 16 names no key.
    let mut sys = System::new(&vec![0x60, 0x10, 0xE0, 0x9E]);
    assert_eq!(sys.tick(), Ok(StepOutcome::Executed));
    assert_eq!(sys.tick(), Err(StepError::KeyOutOfRange));
}

#[test]
fn unknown_opcode_is_skipped() {
    let mut sys = System::new(&vec![0x80, 0x0F, 0x60, 0x21]);
    assert_eq!(sys.tick(), Ok(StepOutcome::UnknownOpcode(0x800F)));
    assert_eq!(sys.pc(), 0x202);
    sys.tick().expect("step failed");
    assert_eq!(sys.reg(0), 0x21);
}

#[test]
fn random_is_masked() {
    // C00F keeps only the low nibble; C100 forces zero.
    let mut sys = System::new(&vec![0xC0, 0x0F, 0xC1, 0x00]);
    run_ticks(&mut sys, 2);
    assert_eq!(sys.reg(0) & 0xF0, 0);
    assert_eq!(sys.reg(1), 0);
}

#[test]
fn timers_stop_at_zero() {
    // delay = 2, then three idle ticks.
    let mut sys = System::new(&vec![
        0x60, 0x02, 0xF0, 0x15, 0xF0, 0x18, 0x61, 0x00, 0x62, 0x00, 0x63, 0x00,
    ]);
    let none: Vec<u8> = vec![];
    sys.frame(&none).expect("step failed");
    sys.frame(&none).expect("step failed");
    assert_eq!(sys.delay_timer(), 2);
    sys.frame(&none).expect("step failed");
    assert_eq!(sys.delay_timer(), 1);
    assert_eq!(sys.sound_timer(), 2);
    sys.frame(&none).expect("step failed");
    assert_eq!(sys.delay_timer(), 0);
    assert_eq!(sys.sound_timer(), 1);
    sys.frame(&none).expect("step failed");
    assert_eq!(sys.delay_timer(), 0);
    assert_eq!(sys.sound_timer(), 0);
    sys.frame(&none).expect("step failed");
    assert_eq!(sys.delay_timer(), 0);
    assert_eq!(sys.sound_timer(), 0);
}

#[test]
fn delay_timer_read_back() {
    let mut sys = System::new(&vec![0x60, 0x09, 0xF0, 0x15, 0xF1, 0x07]);
    run_ticks(&mut sys, 3);
    assert_eq!(sys.reg(1), 9);
}

#[test]
fn bcd_digits() {
    // V0 = 123, I = 0x300, F033.
    let mut sys = System::new(&vec![0x60, 0x7B, 0xA3, 0x00, 0xF0, 0x33]);
    run_ticks(&mut sys, 3);
    assert_eq!(sys.mem_at(0x300), 1);
    assert_eq!(sys.mem_at(0x301), 2);
    assert_eq!(sys.mem_at(0x302), 3);
}

#[test]
fn store_then_load_registers() {
    let mut sys = System::new(&vec![
        0x60, 0xAA, 0x61, 0xBB, 0xA3, 0x00, 0xF1, 0x55, 0x60, 0x00, 0x61, 0x00, 0xF1, 0x65,
    ]);
    run_ticks(&mut sys, 4);
    assert_eq!(sys.mem_at(0x300), 0xAA);
    assert_eq!(sys.mem_at(0x301), 0xBB);
    run_ticks(&mut sys, 2);
    assert_eq!(sys.reg(0), 0);
    assert_eq!(sys.reg(1), 0);
    run_ticks(&mut sys, 1);
    assert_eq!(sys.reg(0), 0xAA);
    assert_eq!(sys.reg(1), 0xBB);
}

#[test]
fn font_address_of_digit() {
    // F029 with V0 = 0 points I at glyph 0, whose first byte is 0xF0.
    let mut sys = System::new(&vec![0xF0, 0x29]);
    run_ticks(&mut sys, 1);
    assert_eq!(sys.addr_reg(), 0);
    assert_eq!(sys.mem_at(0), 0xF0);
    // Glyph 1 starts 5 bytes in.
    let mut sys2 = System::new(&vec![0x60, 0x01, 0xF0, 0x29]);
    run_ticks(&mut sys2, 2);
    assert_eq!(sys2.addr_reg(), 5);
    assert_eq!(sys2.mem_at(5), 0x20);
}

#[test]
fn clear_screen() {
    let mut sys = System::new(&vec![0xA2, 0x06, 0xD0, 0x01, 0x00, 0xE0, 0xFF]);
    run_ticks(&mut sys, 2);
    assert!(sys.pixel(0, 0));
    run_ticks(&mut sys, 1);
    for col in 0..64 {
        assert!(!sys.pixel(0, col));
    }
}

#[test]
fn call_and_return() {
    let mut sys = System::new(&vec![0x22, 0x06, 0x00, 0x00, 0x00, 0x00, 0x00, 0xEE]);
    assert_eq!(sys.tick(), Ok(StepOutcome::Executed));
    assert_eq!(sys.pc(), 0x206);
    assert_eq!(sys.stack_depth(), 1);
    assert_eq!(sys.tick(), Ok(StepOutcome::Executed));
    assert_eq!(sys.pc(), 0x202);
    assert_eq!(sys.stack_depth(), 0);
}

#[test]
fn jump_with_offset() {
    let mut sys = System::new(&vec![0x60, 0x04, 0xB2, 0x00]);
    run_ticks(&mut sys, 2);
    assert_eq!(sys.pc(), 0x204);
}

#[test]
fn index_add() {
    let mut sys = System::new(&vec![0xA0, 0x10, 0x60, 0x05, 0xF0, 0x1E]);
    run_ticks(&mut sys, 3);
    assert_eq!(sys.addr_reg(), 0x15);
    assert_eq!(sys.reg(0xF), 0);
}

#[test]
fn key_skip_instructions() {
    // E09E skips when key V0 is down, E0A1 when it is not.
    let mut sys = System::new(&vec![0x60, 0x07, 0xE0, 0x9E, 0xE0, 0xA1]);
    sys.set_key(7, true);
    run_ticks(&mut sys, 2);
    assert_eq!(sys.pc(), 0x206);
    run_ticks(&mut sys, 1);
    assert_eq!(sys.pc(), 0x208);
    let mut sys2 = System::new(&vec![0x60, 0x07, 0xE0, 0x9E]);
    run_ticks(&mut sys2, 2);
    assert_eq!(sys2.pc(), 0x204);
}

#[test]
fn long_program_is_truncated() {
    let prog: Vec<u8> = vec![0x77; 4000];
    let sys = System::new(&prog);
    assert_eq!(sys.mem_at(0x200), 0x77);
    assert_eq!(sys.mem_at(4095), 0x77);
    assert_eq!(sys.pc(), 0x200);
}

#[test]
fn empty_program_machine_is_blank() {
    let sys = System::new(&vec![]);
    assert_eq!(sys.pc(), 0x200);
    assert_eq!(sys.mem_at(0x200), 0);
    assert_eq!(sys.delay_timer(), 0);
    assert_eq!(sys.sound_timer(), 0);
    assert_eq!(sys.stack_depth(), 0);
    assert!(!sys.is_waiting_for_key());
    for row in 0..32 {
        for col in 0..64 {
            assert!(!sys.pixel(row, col));
        }
    }
}

#[test]
fn register_alu_family() {
    // 8XY0..8XY3: assign, or, and, xor.
    let mut sys = System::new(&vec![
        0x60, 0x0C, 0x61, 0x0A, 0x82, 0x10, 0x83, 0x00, 0x83, 0x11, 0x84, 0x00, 0x84, 0x12,
        0x85, 0x00, 0x85, 0x13,
    ]);
    run_ticks(&mut sys, 9);
    assert_eq!(sys.reg(2), 0x0A);
    assert_eq!(sys.reg(3), 0x0C | 0x0A);
    assert_eq!(sys.reg(4), 0x0C & 0x0A);
    assert_eq!(sys.reg(5), 0x0C ^ 0x0A);
}

#[test]
fn subn_reversed_operands() {
    // 8017: V0 = V1 - V0 with VF = 1 when no borrow.
    let mut sys = System::new(&vec![0x60, 0x02, 0x61, 0x05, 0x80, 0x17]);
    run_ticks(&mut sys, 3);
    assert_eq!(sys.reg(0), 3);
    assert_eq!(sys.reg(0xF), 1);
}

#[test]
fn pixel_colour_values() {
    assert_eq!(display_value(true), 0xFFFFFFFF);
    assert_eq!(display_value(false), 0);
}
