use chip8::bus::Bus;
use chip8::cpu::{Cpu, ExecError};

fn machine() -> (Cpu, Bus) {
    (Cpu::new(), Bus::new())
}

fn write_op(bus: &mut Bus, addr: u16, op: u16) {
    bus.ram_write_byte(addr, (op >> 8) as u8);
    bus.ram_write_byte(addr + 1, (op & 0xff) as u8);
}

#[test]
fn add_imm_wraps_and_keeps_flag() {
    let (mut cpu, mut bus) = machine();
    cpu.write_reg_vx(0, 0xFF);
    write_op(&mut bus, 0x200, 0x7002);
    cpu.run_instruction(&mut bus).unwrap();
    assert_eq!(cpu.read_reg_vx(0), 0x01);
    assert_eq!(cpu.read_reg_vx(0xF), 0x00);
    assert_eq!(cpu.get_pc(), 0x202);
}

#[test]
fn add_reg_sets_carry() {
    let (mut cpu, mut bus) = machine();
    cpu.write_reg_vx(0, 0xFF);
    cpu.write_reg_vx(1, 0x01);
    write_op(&mut bus, 0x200, 0x8014);
    cpu.run_instruction(&mut bus).unwrap();
    assert_eq!(cpu.read_reg_vx(0), 0x00);
    assert_eq!(cpu.read_reg_vx(0xF), 0x01);
}

#[test]
fn add_reg_without_carry() {
    let (mut cpu, mut bus) = machine();
    cpu.write_reg_vx(0, 0x05);
    cpu.write_reg_vx(1, 0x03);
    write_op(&mut bus, 0x200, 0x8014);
    cpu.run_instruction(&mut bus).unwrap();
    assert_eq!(cpu.read_reg_vx(0), 0x08);
    assert_eq!(cpu.read_reg_vx(0xF), 0x00);
}

#[test]
fn sub_reg_sets_borrow_flag() {
    let (mut cpu, mut bus) = machine();
    cpu.write_reg_vx(0, 0x01);
    cpu.write_reg_vx(1, 0x02);
    write_op(&mut bus, 0x200, 0x8015);
    cpu.run_instruction(&mut bus).unwrap();
    assert_eq!(cpu.read_reg_vx(0), 0xFF);
    assert_eq!(cpu.read_reg_vx(0xF), 0x00);
}

#[test]
fn sub_reg_without_borrow() {
    let (mut cpu, mut bus) = machine();
    cpu.write_reg_vx(0, 0x05);
    cpu.write_reg_vx(1, 0x03);
    write_op(&mut bus, 0x200, 0x8015);
    cpu.run_instruction(&mut bus).unwrap();
    assert_eq!(cpu.read_reg_vx(0), 0x02);
    assert_eq!(cpu.read_reg_vx(0xF), 0x01);
}

#[test]
fn sub_rev_swaps_operands() {
    let (mut cpu, mut bus) = machine();
    cpu.write_reg_vx(0, 0x03);
    cpu.write_reg_vx(1, 0x05);
    write_op(&mut bus, 0x200, 0x8017);
    cpu.run_instruction(&mut bus).unwrap();
    assert_eq!(cpu.read_reg_vx(0), 0x02);
    assert_eq!(cpu.read_reg_vx(0xF), 0x01);
}

#[test]
fn logic_ops() {
    let (mut cpu, mut bus) = machine();
    cpu.write_reg_vx(0, 0b1100);
    cpu.write_reg_vx(1, 0b1010);
    write_op(&mut bus, 0x200, 0x8011);
    write_op(&mut bus, 0x202, 0x8232);
    write_op(&mut bus, 0x204, 0x8453);
    cpu.write_reg_vx(2, 0b1100);
    cpu.write_reg_vx(3, 0b1010);
    cpu.write_reg_vx(4, 0b1100);
    cpu.write_reg_vx(5, 0b1010);
    cpu.run_instruction(&mut bus).unwrap();
    cpu.run_instruction(&mut bus).unwrap();
    cpu.run_instruction(&mut bus).unwrap();
    assert_eq!(cpu.read_reg_vx(0), 0b1110);
    assert_eq!(cpu.read_reg_vx(2), 0b1000);
    assert_eq!(cpu.read_reg_vx(4), 0b0110);
}

#[test]
fn shift_right_keeps_low_bit() {
    let (mut cpu, mut bus) = machine();
    cpu.write_reg_vx(0, 0x05);
    write_op(&mut bus, 0x200, 0x8006);
    cpu.run_instruction(&mut bus).unwrap();
    assert_eq!(cpu.read_reg_vx(0), 0x02);
    assert_eq!(cpu.read_reg_vx(0xF), 0x01);
}

#[test]
fn shift_left_keeps_high_bit() {
    let (mut cpu, mut bus) = machine();
    cpu.write_reg_vx(0, 0x81);
    write_op(&mut bus, 0x200, 0x800E);
    cpu.run_instruction(&mut bus).unwrap();
    assert_eq!(cpu.read_reg_vx(0), 0x02);
    assert_eq!(cpu.read_reg_vx(0xF), 0x01);
}

#[test]
fn jump_sets_pc() {
    let (mut cpu, mut bus) = machine();
    write_op(&mut bus, 0x200, 0x1ABC);
    cpu.run_instruction(&mut bus).unwrap();
    assert_eq!(cpu.get_pc(), 0xABC);
}

#[test]
fn jump_v0_adds_offset_to_target() {
    let (mut cpu, mut bus) = machine();
    cpu.write_reg_vx(0, 0x05);
    write_op(&mut bus, 0x200, 0xB300);
    cpu.run_instruction(&mut bus).unwrap();
    assert_eq!(cpu.get_pc(), 0x305);
}

#[test]
fn call_then_ret_restores_pc() {
    let (mut cpu, mut bus) = machine();
    write_op(&mut bus, 0x200, 0x2300);
    write_op(&mut bus, 0x300, 0x00EE);
    cpu.run_instruction(&mut bus).unwrap();
    assert_eq!(cpu.get_pc(), 0x300);
    cpu.run_instruction(&mut bus).unwrap();
    assert_eq!(cpu.get_pc(), 0x202);
}

#[test]
fn ret_with_empty_stack_is_fatal() {
    let (mut cpu, mut bus) = machine();
    write_op(&mut bus, 0x200, 0x00EE);
    let r = cpu.run_instruction(&mut bus);
    assert_eq!(r, Err(ExecError::StackUnderflow { pc: 0x200, opcode: 0x00EE }));
    assert_eq!(cpu.get_pc(), 0x200);
}

#[test]
fn unrecognized_opcode_is_fatal() {
    let (mut cpu, mut bus) = machine();
    let r = cpu.run_instruction(&mut bus);
    assert_eq!(r, Err(ExecError::UnrecognizedOpcode { pc: 0x200, opcode: 0x0000 }));
}

#[test]
fn unrecognized_variant_of_known_group_is_fatal() {
    let (mut cpu, mut bus) = machine();
    write_op(&mut bus, 0x200, 0x5121);
    let r = cpu.run_instruction(&mut bus);
    assert_eq!(r, Err(ExecError::UnrecognizedOpcode { pc: 0x200, opcode: 0x5121 }));
}

#[test]
fn skip_eq_imm() {
    let (mut cpu, mut bus) = machine();
    cpu.write_reg_vx(0, 7);
    write_op(&mut bus, 0x200, 0x3007);
    cpu.run_instruction(&mut bus).unwrap();
    assert_eq!(cpu.get_pc(), 0x204);
    let (mut cpu2, mut bus2) = machine();
    cpu2.write_reg_vx(0, 8);
    write_op(&mut bus2, 0x200, 0x3007);
    cpu2.run_instruction(&mut bus2).unwrap();
    assert_eq!(cpu2.get_pc(), 0x202);
}

#[test]
fn skip_ne_imm_and_reg_compares() {
    let (mut cpu, mut bus) = machine();
    cpu.write_reg_vx(0, 7);
    cpu.write_reg_vx(1, 7);
    write_op(&mut bus, 0x200, 0x4007);
    cpu.run_instruction(&mut bus).unwrap();
    assert_eq!(cpu.get_pc(), 0x202);
    write_op(&mut bus, 0x202, 0x5010);
    cpu.run_instruction(&mut bus).unwrap();
    assert_eq!(cpu.get_pc(), 0x206);
    write_op(&mut bus, 0x206, 0x9010);
    cpu.run_instruction(&mut bus).unwrap();
    assert_eq!(cpu.get_pc(), 0x208);
}

#[test]
fn set_imm_and_assign() {
    let (mut cpu, mut bus) = machine();
    write_op(&mut bus, 0x200, 0x6A42);
    write_op(&mut bus, 0x202, 0x8BA0);
    cpu.run_instruction(&mut bus).unwrap();
    cpu.run_instruction(&mut bus).unwrap();
    assert_eq!(cpu.read_reg_vx(0xA), 0x42);
    assert_eq!(cpu.read_reg_vx(0xB), 0x42);
}

#[test]
fn set_index() {
    let (mut cpu, mut bus) = machine();
    write_op(&mut bus, 0x200, 0xA123);
    cpu.run_instruction(&mut bus).unwrap();
    assert_eq!(cpu.get_i(), 0x123);
}

#[test]
fn add_index_wraps_16_bits() {
    let (mut cpu, mut bus) = machine();
    cpu.write_reg_vx(0, 0x01);
    write_op(&mut bus, 0x200, 0xAFFF);
    write_op(&mut bus, 0x202, 0xF01E);
    cpu.run_instruction(&mut bus).unwrap();
    cpu.run_instruction(&mut bus).unwrap();
    assert_eq!(cpu.get_i(), 0x1000);
}

#[test]
fn glyph_addr_is_five_times_digit() {
    let (mut cpu, mut bus) = machine();
    cpu.write_reg_vx(0, 0x0A);
    write_op(&mut bus, 0x200, 0xF029);
    cpu.run_instruction(&mut bus).unwrap();
    assert_eq!(cpu.get_i(), 50);
}

#[test]
fn random_masked_by_zero_is_zero() {
    let (mut cpu, mut bus) = machine();
    cpu.write_reg_vx(0, 0xAA);
    write_op(&mut bus, 0x200, 0xC000);
    cpu.run_instruction(&mut bus).unwrap();
    assert_eq!(cpu.read_reg_vx(0), 0x00);
    assert_eq!(cpu.get_pc(), 0x202);
}

#[test]
fn bcd_writes_three_digits() {
    let (mut cpu, mut bus) = machine();
    cpu.write_reg_vx(0, 157);
    write_op(&mut bus, 0x200, 0xA300);
    write_op(&mut bus, 0x202, 0xF033);
    cpu.run_instruction(&mut bus).unwrap();
    cpu.run_instruction(&mut bus).unwrap();
    assert_eq!(bus.ram_read_byte(0x300), 1);
    assert_eq!(bus.ram_read_byte(0x301), 5);
    assert_eq!(bus.ram_read_byte(0x302), 7);
}

#[test]
fn bcd_out_of_bounds_is_fatal() {
    let (mut cpu, mut bus) = machine();
    write_op(&mut bus, 0x200, 0xAFFF);
    write_op(&mut bus, 0x202, 0xF033);
    cpu.run_instruction(&mut bus).unwrap();
    let r = cpu.run_instruction(&mut bus);
    assert_eq!(r, Err(ExecError::OutOfBoundsAccess { pc: 0x202, address: 4096 }));
}

#[test]
fn fetch_past_memory_is_fatal() {
    let (mut cpu, mut bus) = machine();
    write_op(&mut bus, 0x200, 0x1FFF);
    cpu.run_instruction(&mut bus).unwrap();
    let r = cpu.run_instruction(&mut bus);
    assert_eq!(r, Err(ExecError::OutOfBoundsAccess { pc: 0xFFF, address: 0x1000 }));
}

#[test]
fn store_load_round_trip() {
    let (mut cpu, mut bus) = machine();
    cpu.write_reg_vx(0, 10);
    cpu.write_reg_vx(1, 20);
    cpu.write_reg_vx(2, 30);
    write_op(&mut bus, 0x200, 0xA300);
    write_op(&mut bus, 0x202, 0xF255);
    write_op(&mut bus, 0x204, 0xA300);
    write_op(&mut bus, 0x206, 0xF265);
    cpu.run_instruction(&mut bus).unwrap();
    cpu.run_instruction(&mut bus).unwrap();
    assert_eq!(cpu.get_i(), 0x303);
    cpu.write_reg_vx(0, 0);
    cpu.write_reg_vx(1, 0);
    cpu.write_reg_vx(2, 0);
    cpu.run_instruction(&mut bus).unwrap();
    cpu.run_instruction(&mut bus).unwrap();
    assert_eq!(cpu.read_reg_vx(0), 10);
    assert_eq!(cpu.read_reg_vx(1), 20);
    assert_eq!(cpu.read_reg_vx(2), 30);
    assert_eq!(cpu.get_i(), 0x303);
}

#[test]
fn store_regs_writes_memory() {
    let (mut cpu, mut bus) = machine();
    cpu.write_reg_vx(0, 7);
    cpu.write_reg_vx(1, 9);
    write_op(&mut bus, 0x200, 0xA400);
    write_op(&mut bus, 0x202, 0xF155);
    cpu.run_instruction(&mut bus).unwrap();
    cpu.run_instruction(&mut bus).unwrap();
    assert_eq!(bus.ram_read_byte(0x400), 7);
    assert_eq!(bus.ram_read_byte(0x401), 9);
    assert_eq!(cpu.get_i(), 0x402);
}

#[test]
fn draw_twice_is_involution_with_collision() {
    let (mut cpu, mut bus) = machine();
    // glyph 0 lives at address 0; draw it twice at (0, 0)
    write_op(&mut bus, 0x200, 0xA000);
    write_op(&mut bus, 0x202, 0xD015);
    write_op(&mut bus, 0x204, 0xD015);
    cpu.run_instruction(&mut bus).unwrap();
    cpu.run_instruction(&mut bus).unwrap();
    assert_eq!(cpu.read_reg_vx(0xF), 0);
    {
        let buffer = bus.get_display_buffer();
        assert_eq!(buffer[0], 1);
        assert_eq!(buffer[3], 1);
        assert_eq!(buffer[4], 0);
    }
    cpu.run_instruction(&mut bus).unwrap();
    assert_eq!(cpu.read_reg_vx(0xF), 1);
    let buffer = bus.get_display_buffer();
    for p in 0..(64 * 32) {
        assert_eq!(buffer[p], 0);
    }
}

#[test]
fn draw_wraps_around_right_edge() {
    let (mut cpu, mut bus) = machine();
    bus.ram_write_byte(0x300, 0xFF);
    cpu.write_reg_vx(0, 63);
    cpu.write_reg_vx(1, 0);
    write_op(&mut bus, 0x200, 0xA300);
    write_op(&mut bus, 0x202, 0xD011);
    cpu.run_instruction(&mut bus).unwrap();
    cpu.run_instruction(&mut bus).unwrap();
    let buffer = bus.get_display_buffer();
    assert_eq!(buffer[63], 1);
    for x in 0..7 {
        assert_eq!(buffer[x], 1);
    }
    for x in 7..63 {
        assert_eq!(buffer[x], 0);
    }
    assert_eq!(cpu.read_reg_vx(0xF), 0);
}

#[test]
fn draw_out_of_bounds_is_fatal() {
    let (mut cpu, mut bus) = machine();
    write_op(&mut bus, 0x200, 0xAFFF);
    write_op(&mut bus, 0x202, 0xD012);
    cpu.run_instruction(&mut bus).unwrap();
    let r = cpu.run_instruction(&mut bus);
    assert_eq!(r, Err(ExecError::OutOfBoundsAccess { pc: 0x202, address: 4096 }));
}

#[test]
fn clear_screen_resets_pixels() {
    let (mut cpu, mut bus) = machine();
    write_op(&mut bus, 0x200, 0xA000);
    write_op(&mut bus, 0x202, 0xD015);
    write_op(&mut bus, 0x204, 0x00E0);
    cpu.run_instruction(&mut bus).unwrap();
    cpu.run_instruction(&mut bus).unwrap();
    cpu.run_instruction(&mut bus).unwrap();
    let buffer = bus.get_display_buffer();
    for p in 0..(64 * 32) {
        assert_eq!(buffer[p], 0);
    }
}

#[test]
fn skip_if_key_pressed() {
    let (mut cpu, mut bus) = machine();
    cpu.write_reg_vx(0, 4);
    bus.set_key_pressed(Some(4));
    write_op(&mut bus, 0x200, 0xE09E);
    cpu.run_instruction(&mut bus).unwrap();
    assert_eq!(cpu.get_pc(), 0x204);
    write_op(&mut bus, 0x204, 0xE0A1);
    cpu.run_instruction(&mut bus).unwrap();
    assert_eq!(cpu.get_pc(), 0x206);
}

#[test]
fn skip_if_key_not_pressed() {
    let (mut cpu, mut bus) = machine();
    cpu.write_reg_vx(0, 4);
    bus.set_key_pressed(None);
    write_op(&mut bus, 0x200, 0xE0A1);
    cpu.run_instruction(&mut bus).unwrap();
    assert_eq!(cpu.get_pc(), 0x204);
}

#[test]
fn wait_key_blocks_until_pressed() {
    let (mut cpu, mut bus) = machine();
    write_op(&mut bus, 0x200, 0xF00A);
    cpu.run_instruction(&mut bus).unwrap();
    assert_eq!(cpu.get_pc(), 0x200);
    cpu.run_instruction(&mut bus).unwrap();
    assert_eq!(cpu.get_pc(), 0x200);
    bus.set_key_pressed(Some(9));
    cpu.run_instruction(&mut bus).unwrap();
    assert_eq!(cpu.get_pc(), 0x202);
    assert_eq!(cpu.read_reg_vx(0), 9);
}

#[test]
fn keyboard_tracks_single_key() {
    let (_, mut bus) = machine();
    assert_eq!(bus.get_key_pressed(), None);
    bus.set_key_pressed(Some(0xC));
    assert_eq!(bus.get_key_pressed(), Some(0xC));
    assert!(bus.is_key_pressed(0xC));
    assert!(!bus.is_key_pressed(0xB));
    bus.set_key_pressed(None);
    assert_eq!(bus.get_key_pressed(), None);
    assert!(!bus.is_key_pressed(0xC));
}

#[test]
fn timer_observed_never_exceeds_set_value() {
    let (mut cpu, mut bus) = machine();
    cpu.write_reg_vx(0, 5);
    write_op(&mut bus, 0x200, 0xF015);
    write_op(&mut bus, 0x202, 0xF107);
    cpu.run_instruction(&mut bus).unwrap();
    cpu.run_instruction(&mut bus).unwrap();
    assert!(cpu.read_reg_vx(1) <= 5);
}

#[test]
fn timer_set_to_zero_reads_zero() {
    let (_, mut bus) = machine();
    bus.set_delay_timer(0);
    assert_eq!(bus.get_delay_timer(), 0);
}

#[test]
fn sound_timer_is_a_no_op() {
    let (mut cpu, mut bus) = machine();
    write_op(&mut bus, 0x200, 0xF018);
    cpu.run_instruction(&mut bus).unwrap();
    assert_eq!(cpu.get_pc(), 0x202);
}

#[test]
fn load_rom_places_bytes_at_program_start() {
    let (_, mut bus) = machine();
    let data = vec![0xDE, 0xAD, 0xBE, 0xEF];
    bus.load_rom(&data);
    assert_eq!(bus.ram_read_byte(0x200), 0xDE);
    assert_eq!(bus.ram_read_byte(0x201), 0xAD);
    assert_eq!(bus.ram_read_byte(0x202), 0xBE);
    assert_eq!(bus.ram_read_byte(0x203), 0xEF);
    assert_eq!(bus.ram_read_byte(0x204), 0x00);
}

#[test]
fn glyph_sprites_sit_low_in_memory() {
    let (_, bus) = machine();
    assert_eq!(bus.ram_read_byte(0), 0xF0);
    assert_eq!(bus.ram_read_byte(4), 0xF0);
    assert_eq!(bus.ram_read_byte(5 * 0xF), 0xF0);
    assert_eq!(bus.ram_read_byte(5 * 0xF + 4), 0x80);
    assert_eq!(bus.ram_read_byte(80), 0x00);
}

#[test]
fn display_index_is_row_major() {
    assert_eq!(chip8::display::Display::get_idx_from_coords(3, 2), 2 * 64 + 3);
}

#[test]
fn clear_and_ret_decode_only_for_exact_opcodes() {
    let (mut cpu, mut bus) = machine();
    write_op(&mut bus, 0x200, 0x01E0);
    let r = cpu.run_instruction(&mut bus);
    assert_eq!(r, Err(ExecError::UnrecognizedOpcode { pc: 0x200, opcode: 0x01E0 }));
}
