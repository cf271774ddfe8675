use lilium::assembler::{assemble_line, instruction_hex, AsmError};
use lilium::Instruction;

fn ins(opcode: u8, target: u8, left: u8, right: u8) -> Instruction {
    Instruction { opcode, target, left, right }
}

#[test]
fn assembles_plain_instructions() {
    assert_eq!(assemble_line("hlt"), Ok(Some(ins(0, 0, 0, 0))));
    assert_eq!(assemble_line("  nop  "), Ok(Some(ins(1, 0, 0, 0))));
    assert_eq!(assemble_line("add r1 r2 r3"), Ok(Some(ins(2, 1, 2, 3))));
    assert_eq!(assemble_line("add\tr+5 r0 r255"), Ok(Some(ins(2, 5, 0, 255))));
}

#[test]
fn assembles_immediate_load() {
    assert_eq!(assemble_line("ldi r4 513"), Ok(Some(ins(2, 4, 1, 2))));
    assert_eq!(assemble_line("ldi r4 65535"), Ok(Some(ins(2, 4, 255, 255))));
}

#[test]
fn labels_and_blank_lines() {
    assert_eq!(assemble_line("start: add r1 r2 r3"), Ok(Some(ins(2, 1, 2, 3))));
    assert_eq!(assemble_line("loop:"), Ok(None));
    assert_eq!(assemble_line(""), Ok(None));
    assert_eq!(assemble_line(" \t "), Ok(None));
}

#[test]
fn assembler_errors() {
    assert_eq!(assemble_line("add r1 r2"), Err(AsmError::MissingArguments));
    assert_eq!(assemble_line("add r1 rz r3"), Err(AsmError::InvalidRegister));
    assert_eq!(assemble_line("add r256 r1 r2"), Err(AsmError::InvalidRegister));
    assert_eq!(assemble_line("ldi r1"), Err(AsmError::MissingArguments));
    assert_eq!(assemble_line("ldi r1 70000"), Err(AsmError::ExpectedNumber));
    assert_eq!(assemble_line("mul r1 r2 r3"), Err(AsmError::InvalidInstruction));
    assert_eq!(assemble_line("fooi r1 2"), Err(AsmError::InvalidInstruction));
    assert_eq!(assemble_line("hlt \u{e9}"), Err(AsmError::NotAscii));
}

#[test]
fn hex_output() {
    assert_eq!(instruction_hex(ins(0, 0, 0, 0)), "00000000");
    assert_eq!(instruction_hex(ins(2, 4, 1, 2)), "02040102");
    assert_eq!(instruction_hex(ins(0xab, 0x10, 0xff, 0x0c)), "ab10ff0c");
}
