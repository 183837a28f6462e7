//! End-to-end scenarios: source text through the assembler into the
//! simulated processor.

use rv32i::assembler::compile;
use rv32i::config;
use rv32i::processor::{Instruction, Processor};

#[test]
fn test_add_at_text_base_encodes_and_decodes() {
    let (text, _data, _dbg) = compile("add x1, x2, x3").unwrap();
    assert_eq!(text, vec![0xB3, 0x00, 0x31, 0x00]); // machine word 0x003100B3
    let p = Processor::new(config::TEXT_BASE, config::DATA_BASE, config::STACK_BASE, 0);
    let word = u32::from_le_bytes([text[0], text[1], text[2], text[3]]);
    assert_eq!(word, 0x003100B3);
    assert_eq!(p.decode(word).unwrap(), Instruction::Add { rd: 1, rs1: 2, rs2: 3 });
}

#[test]
fn test_decode_and_execute_addi_with_negative_immediate() {
    let mut p = Processor::new(config::TEXT_BASE, config::DATA_BASE, config::STACK_BASE, 0);
    let inst = p.decode(0xFFF10093).unwrap();
    assert_eq!(inst, Instruction::Addi { rd: 1, rs1: 2, imm: -1 });
    p.pc = config::TEXT_BASE;
    p.registers[2] = 10;
    p.execute(inst).unwrap();
    assert_eq!(p.read_register(1), 9);
    assert_eq!(p.pc(), config::TEXT_BASE + 4);
}

#[test]
fn test_slt_versus_sltu_on_wraparound_value() {
    let mut p = Processor::new(0, 0, 0, 0);
    p.registers[1] = 0xFFFFFFFF;
    p.registers[2] = 1;
    p.execute(Instruction::Slt { rd: 3, rs1: 1, rs2: 2 }).unwrap();
    assert_eq!(p.read_register(3), 1); // signed: -1 < 1
    p.execute(Instruction::Sltu { rd: 3, rs1: 1, rs2: 2 }).unwrap();
    assert_eq!(p.read_register(3), 0); // unsigned: 0xFFFFFFFF > 1
}

#[test]
fn test_jalr_links_and_forces_even_target() {
    let mut p = Processor::new(0, 0, 0, 0);
    p.pc = 0x100;
    p.registers[2] = 0x200;
    p.execute(Instruction::Jalr { rd: 1, rs1: 2, imm: 1 }).unwrap();
    assert_eq!(p.read_register(1), 0x104);
    assert_eq!(p.pc(), 0x200); // LSB of 0x201 forced to zero
}

#[test]
fn test_compiled_program_runs_to_ebreak() {
    let source = "
        addi x1, x0, 7
        addi x2, x0, 5
        add x3, x1, x2
        ebreak
    ";
    let (text, data, _dbg) = compile(source).unwrap();
    let mut p = Processor::new(
        config::TEXT_BASE,
        config::DATA_BASE,
        config::STACK_BASE,
        config::STACK_SIZE,
    );
    p.load(&text, &data);
    assert_eq!(p.pc(), config::TEXT_BASE);
    p.step().unwrap();
    p.step().unwrap();
    p.step().unwrap();
    assert_eq!(p.read_register(3), 12);
    assert_eq!(p.step(), Err(rv32i::processor::StepError::Ebreak));
}

#[test]
fn test_branch_to_label_is_pc_relative() {
    let source = "
        beq x0, x0, done
        addi x1, x0, 1
        done:
        addi x2, x0, 2
    ";
    let (text, data, _dbg) = compile(source).unwrap();
    let mut p = Processor::new(
        config::TEXT_BASE,
        config::DATA_BASE,
        config::STACK_BASE,
        config::STACK_SIZE,
    );
    p.load(&text, &data);
    p.step().unwrap(); // the taken branch skips the first addi
    assert_eq!(p.pc(), config::TEXT_BASE + 8);
    p.step().unwrap();
    assert_eq!(p.read_register(1), 0);
    assert_eq!(p.read_register(2), 2);
}

#[test]
fn test_load_word_from_data_section() {
    let source = "
        .data
        num: .word 305419896
        .text
        lui x1, 0x10010
        lw x2, x1, 0
        ebreak
    ";
    let (text, data, _dbg) = compile(source).unwrap();
    assert_eq!(data, vec![0x78, 0x56, 0x34, 0x12]);
    let mut p = Processor::new(
        config::TEXT_BASE,
        config::DATA_BASE,
        config::STACK_BASE,
        config::STACK_SIZE,
    );
    p.load(&text, &data);
    p.step().unwrap(); // lui
    assert_eq!(p.read_register(1), config::DATA_BASE);
    p.step().unwrap(); // lw
    assert_eq!(p.read_register(2), 0x12345678);
}

#[test]
fn test_store_then_load_round_trips_through_memory() {
    let source = "
        .data
        buf: .space 8
        .text
        lui x1, 0x10010
        addi x2, x0, 1234
        sw x2, 4(x1)
        lw x3, x1, 4
        ebreak
    ";
    let (text, data, _dbg) = compile(source).unwrap();
    let mut p = Processor::new(
        config::TEXT_BASE,
        config::DATA_BASE,
        config::STACK_BASE,
        config::STACK_SIZE,
    );
    p.load(&text, &data);
    for _ in 0..4 {
        p.step().unwrap();
    }
    assert_eq!(p.read_register(3), 1234);
    assert_eq!(p.read_memory_word(config::DATA_BASE + 4), Ok(1234));
}

#[test]
fn test_fence_is_a_no_op_word() {
    let (text, _data, _dbg) = compile("fence").unwrap();
    assert_eq!(text, vec![0x0F, 0x00, 0x00, 0x00]);
    let p = Processor::new(0, 0, 0, 0);
    assert_eq!(p.decode(0x0000000F).unwrap(), Instruction::Fence);
}

#[test]
fn test_ecall_word_is_bit_exact() {
    let (text, _data, _dbg) = compile("ecall").unwrap();
    assert_eq!(text, vec![0x73, 0x00, 0x00, 0x00]);
    let p = Processor::new(0, 0, 0, 0);
    assert_eq!(p.decode(0x00000073).unwrap(), Instruction::Ecall);
    assert_eq!(p.decode(0x00100073).unwrap(), Instruction::Ebreak);
}

#[test]
fn test_encoder_decoder_round_trip_over_formats() {
    let source = "
        sub x5, x6, x7
        andi x8, x9, -3
        lh x10, x11, -2
        sh x12, 6(x13)
        bne x14, x15, -8
        jal x1, 2048
        lui x16, 74565
        auipc x17, 1
        jalr x18, x19, -4
    ";
    let (text, _data, _dbg) = compile(source).unwrap();
    let p = Processor::new(0, 0, 0, 0);
    let words: Vec<u32> = text
        .chunks(4)
        .map(|c| u32::from_le_bytes([c[0], c[1], c[2], c[3]]))
        .collect();
    assert_eq!(p.decode(words[0]).unwrap(), Instruction::Sub { rd: 5, rs1: 6, rs2: 7 });
    assert_eq!(p.decode(words[1]).unwrap(), Instruction::Andi { rd: 8, rs1: 9, imm: -3 });
    assert_eq!(p.decode(words[2]).unwrap(), Instruction::Lh { rd: 10, rs1: 11, imm: -2 });
    assert_eq!(p.decode(words[3]).unwrap(), Instruction::Sh { rs1: 13, rs2: 12, imm: 6 });
    assert_eq!(p.decode(words[4]).unwrap(), Instruction::Bne { rs1: 14, rs2: 15, imm: -8 });
    assert_eq!(p.decode(words[5]).unwrap(), Instruction::Jal { rd: 1, imm: 2048 });
    assert_eq!(p.decode(words[6]).unwrap(), Instruction::Lui { rd: 16, imm: 0x12345000 });
    assert_eq!(p.decode(words[7]).unwrap(), Instruction::Auipc { rd: 17, imm: 0x1000 });
    assert_eq!(p.decode(words[8]).unwrap(), Instruction::Jalr { rd: 18, rs1: 19, imm: -4 });
}

#[test]
fn test_stack_segment_is_zero_filled_and_writable() {
    let mut p = Processor::new(
        config::TEXT_BASE,
        config::DATA_BASE,
        config::STACK_BASE,
        config::STACK_SIZE,
    );
    assert_eq!(p.memory.read_byte(config::STACK_BASE), Ok(0));
    p.memory.write_word(config::STACK_BASE, 0xDEADBEEF).unwrap();
    assert_eq!(p.memory.read_word(config::STACK_BASE), Ok(0xDEADBEEF));
}
