use chip8::chip8::Chip8;
use chip8::cpu::ExecError;

#[test]
fn machine_runs_a_loaded_program() {
    let mut machine = Chip8::new();
    // V0 = 0x42; V1 = V0; draw glyph 0 at (V2, V3); then an unknown opcode
    let rom = vec![0x60, 0x42, 0x81, 0x00, 0xA0, 0x00, 0xD2, 0x35, 0xFF, 0xFF];
    machine.load_rom(&rom);
    machine.run_instruction().unwrap();
    machine.run_instruction().unwrap();
    machine.run_instruction().unwrap();
    machine.run_instruction().unwrap();
    let buffer = machine.get_display_buffer();
    assert_eq!(buffer[0], 1);
    assert_eq!(buffer[4], 0);
    let r = machine.run_instruction();
    assert_eq!(r, Err(ExecError::UnrecognizedOpcode { pc: 0x208, opcode: 0xFFFF }));
}

#[test]
fn machine_forwards_key_state() {
    let mut machine = Chip8::new();
    // V0 = 4; skip the next instruction if key 4 is pressed
    let rom = vec![0x60, 0x04, 0xE0, 0x9E];
    machine.load_rom(&rom);
    machine.set_key_pressed(Some(4));
    machine.run_instruction().unwrap();
    let r = machine.run_instruction();
    assert!(r.is_ok());
    // the skip jumped past address 0x204; fetching there reads zeroes
    let r2 = machine.run_instruction();
    assert_eq!(r2, Err(ExecError::UnrecognizedOpcode { pc: 0x206, opcode: 0x0000 }));
}

#[test]
fn fresh_machine_has_dark_screen() {
    let machine = Chip8::new();
    let buffer = machine.get_display_buffer();
    for p in 0..(64 * 32) {
        assert_eq!(buffer[p], 0);
    }
}
