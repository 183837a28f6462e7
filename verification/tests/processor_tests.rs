use rv32i::processor::{Instruction, MemoryFault, Processor, StepError};

#[test]
fn test_decode_add() {
    let processor = Processor::new(0, 0, 0, 0);
    // 0000000 (f7) | 00011 (rs2) | 00010 (rs1) | 000 (f3) | 00001 (rd) | 0110011 (op)
    let instruction = processor.decode(0x003100B3).unwrap();
    assert_eq!(instruction, Instruction::Add { rd: 1, rs1: 2, rs2: 3 });
}

#[test]
fn test_decode_addi() {
    let processor = Processor::new(0, 0, 0, 0);
    // addi x1, x2, -1
    // imm[11:0] = -1 (0xFFF) | rs1=2 | f3=0 | rd=1 | op=0010011
    let instruction = processor.decode(0xFFF10093).unwrap();
    assert_eq!(instruction, Instruction::Addi { rd: 1, rs1: 2, imm: -1 });

    // addi x1, x2, 1
    let instruction = processor.decode(0x00110093).unwrap();
    assert_eq!(instruction, Instruction::Addi { rd: 1, rs1: 2, imm: 1 });
}

#[test]
fn test_decode_sw() {
    let processor = Processor::new(0, 0, 0, 0);
    // sw x3, -4(x2)
    // imm[11:5] = -1 (0xfe0 >> 5 = 0x7f) | rs2=3 | rs1=2 | f3=2 | imm[4:0] = -4 & 0x1f (0x1c) | op=0100011
    // inst = 0xFE312E23
    let instruction = processor.decode(0xFE312E23).unwrap();
    assert_eq!(instruction, Instruction::Sw { rs1: 2, rs2: 3, imm: -4 });
}

#[test]
fn test_decode_beq() {
    let processor = Processor::new(0, 0, 0, 0);
    // beq x1, x2, -4
    // imm = -4 (0xfffffffc)
    // imm[12]=1, imm[11]=1, imm[10:5]=0x3f, imm[4:1]=0xe
    // inst[31]=1, inst[7]=1, inst[30:25]=0x3f, inst[11:8]=0xe, rs2=2, rs1=1, f3=0, op=1100011
    // inst = 0xFE208EE3
    let instruction = processor.decode(0xFE208EE3).unwrap();
    assert_eq!(instruction, Instruction::Beq { rs1: 1, rs2: 2, imm: -4 });
}

#[test]
fn test_decode_lui() {
    let processor = Processor::new(0, 0, 0, 0);
    // lui x5, 0x12345
    // imm[31:12]=0x12345, rd=5, op=0110111
    let instruction = processor.decode(0x123452B7).unwrap();
    assert_eq!(instruction, Instruction::Lui { rd: 5, imm: 0x12345000 });
}

#[test]
fn test_decode_jal() {
    let processor = Processor::new(0, 0, 0, 0);
    // jal x1, -4
    // imm = -4 (0xfffffffc)
    // imm[20]=1, imm[19:12]=0xff, imm[11]=1, imm[10:1]=0x3fe
    // inst[31]=1, inst[30:21]=0x3fe, inst[20]=1, inst[19:12]=0xff, rd=1, op=1101111
    // Binary: 1 1111111110 1 11111111 00001 1101111
    // Groups: 1111 1111 1101 1111 1111 0000 1110 1111 => 0xFFDFF0EF
    let instruction = processor.decode(0xFFDFF0EF).unwrap();
    assert_eq!(instruction, Instruction::Jal { rd: 1, imm: -4 });
}

#[test]
fn test_decode_jalr() {
    let processor = Processor::new(0, 0, 0, 0);
    // jalr x1, 4(x2)
    // imm=4 | rs1=2 | f3=0 | rd=1 | op=1100111
    let instruction = processor.decode(0x004100E7).unwrap();
    assert_eq!(instruction, Instruction::Jalr { rd: 1, rs1: 2, imm: 4 });
}

#[test]
fn test_decode_shifts() {
    let processor = Processor::new(0, 0, 0, 0);

    // slli x1, x2, 5
    // imm[11:5]=0 | shamt=5 | rs1=2 | f3=1 | rd=1 | op=0010011
    // 0000000 00101 00010 001 00001 0010011 => 0x00511093
    let instruction = processor.decode(0x00511093).unwrap();
    assert_eq!(instruction, Instruction::Slli { rd: 1, rs1: 2, shamt: 5 });

    // srli x1, x2, 5
    // imm[11:5]=0 | shamt=5 | rs1=2 | f3=5 | rd=1 | op=0010011
    // 0000000 00101 00010 101 00001 0010011 => 0x00515093
    let instruction = processor.decode(0x00515093).unwrap();
    assert_eq!(instruction, Instruction::Srli { rd: 1, rs1: 2, shamt: 5 });

    // srai x1, x2, 5
    // imm[11:5]=0x20 | shamt=5 | rs1=2 | f3=5 | rd=1 | op=0010011
    // 0100000 00101 00010 101 00001 0010011 => 0x40515093
    let instruction = processor.decode(0x40515093).unwrap();
    assert_eq!(instruction, Instruction::Srai { rd: 1, rs1: 2, shamt: 5 });
}

#[test]
fn test_decode_shift_max_shamt() {
    let processor = Processor::new(0, 0, 0, 0);
    // slli x1, x2, 31  — maximum meaningful shift for 32-bit registers
    // funct7=0000000 | shamt=11111 | rs1=00010 | funct3=001 | rd=00001 | op=0010011
    // 0x01F11093
    let instruction = processor.decode(0x01F11093).unwrap();
    assert_eq!(instruction, Instruction::Slli { rd: 1, rs1: 2, shamt: 31 });
}

#[test]
fn test_decode_shift_invalid_func7() {
    let processor = Processor::new(0, 0, 0, 0);
    // srli with funct7=0x10 (invalid — only 0x00 and 0x20 are valid for funct3=0x5)
    // funct7=0010000 | shamt=00100 | rs1=00010 | funct3=101 | rd=00001 | op=0010011
    // 0x20415093
    let result = processor.decode(0x20415093);
    assert_eq!(result, Err(StepError::IllegalInstruction));
}

#[test]
fn test_execute_add() {
    let mut processor = Processor::new(0, 0, 0, 0);
    processor.registers[1] = 10;
    processor.registers[2] = -20i32 as u32;
    let instruction = Instruction::Add { rd: 3, rs1: 1, rs2: 2 };
    processor.execute(instruction).unwrap();
    assert_eq!(processor.registers[3], -10i32 as u32);
}

#[test]
fn test_execute_and() {
    let mut processor = Processor::new(0, 0, 0, 0);
    processor.registers[1] = 0b1100;
    processor.registers[2] = 0b1010;
    let instruction = Instruction::And { rd: 3, rs1: 1, rs2: 2 };
    processor.execute(instruction).unwrap();
    assert_eq!(processor.registers[3], 0b1000);
}

#[test]
fn test_execute_x0() {
    let mut processor = Processor::new(0, 0, 0, 0);
    processor.registers[1] = 10;
    processor.registers[2] = 20;
    // Instruction that tries to write to x0
    let instruction = Instruction::Add { rd: 0, rs1: 1, rs2: 2 };
    processor.execute(instruction).unwrap();
    assert_eq!(processor.registers[0], 0);
}

#[test]
fn test_step_pc_increment() {
    let mut processor = Processor::new(0x400000, 0, 0, 0);
    // add x3, x1, x2 (0x002081B3)
    processor.memory.text = vec![0xB3, 0x81, 0x20, 0x00];
    processor.pc = 0x400000;

    processor.step().unwrap();
    assert_eq!(processor.pc, 0x400000 + 4);
}

#[test]
fn test_execute_slt_negative() {
    let mut processor = Processor::new(0, 0, 0, 0);
    // x1 = 2, x2 = 1 → x1 > x2 signed → rd = 0
    processor.registers[1] = 2;
    processor.registers[2] = 1;
    processor.execute(Instruction::Slt { rd: 3, rs1: 1, rs2: 2 }).unwrap();
    assert_eq!(processor.registers[3], 0);
}

#[test]
fn test_execute_slt_signed_vs_unsigned() {
    let mut processor = Processor::new(0, 0, 0, 0);
    // x1 = -1 (0xFFFFFFFF), x2 = 1
    // signed: -1 < 1 → rd = 1  (this is the key difference with sltu)
    processor.registers[1] = 0xFFFFFFFF;
    processor.registers[2] = 1;
    processor.execute(Instruction::Slt { rd: 3, rs1: 1, rs2: 2 }).unwrap();
    assert_eq!(processor.registers[3], 1);
}

#[test]
fn test_execute_slt_equal() {
    let mut processor = Processor::new(0, 0, 0, 0);
    // x1 == x2 → rd = 0 (strictly less than)
    processor.registers[1] = 5;
    processor.registers[2] = 5;
    processor.execute(Instruction::Slt { rd: 3, rs1: 1, rs2: 2 }).unwrap();
    assert_eq!(processor.registers[3], 0);
}

#[test]
fn test_execute_sltu_signed_vs_unsigned() {
    let mut processor = Processor::new(0, 0, 0, 0);
    // x1 = 0xFFFFFFFF, x2 = 1
    // unsigned: 0xFFFFFFFF > 1 → rd = 0  (opposite of slt!)
    processor.registers[1] = 0xFFFFFFFF;
    processor.registers[2] = 1;
    processor.execute(Instruction::Sltu { rd: 3, rs1: 1, rs2: 2 }).unwrap();
    assert_eq!(processor.registers[3], 0);
}

#[test]
fn test_execute_sltu_positive() {
    let mut processor = Processor::new(0, 0, 0, 0);
    // x1 = 1, x2 = 0xFFFFFFFF
    // unsigned: 1 < 0xFFFFFFFF → rd = 1
    processor.registers[1] = 1;
    processor.registers[2] = 0xFFFFFFFF;
    processor.execute(Instruction::Sltu { rd: 3, rs1: 1, rs2: 2 }).unwrap();
    assert_eq!(processor.registers[3], 1);
}

fn processor_with_data(data: Vec<u8>) -> Processor {
    let mut p = Processor::new(0x0, 0x10000000, 0x7FFFFFFF, 1024);
    p.memory.data = data;
    p
}

#[test]
fn test_lb_sign_extends_negative() {
    let mut p = processor_with_data(vec![0xFF]);
    p.write_register(1, 0x10000000);  // rs1 = data_base
    p.execute(Instruction::Lb { rd: 2, rs1: 1, imm: 0 }).unwrap();
    // 0xFF as i8 = -1, sign extended to u32 = 0xFFFFFFFF
    assert_eq!(p.read_register(2), 0xFFFFFFFF);
}

#[test]
fn test_lbu_zero_extends() {
    let mut p = processor_with_data(vec![0xFF]);
    p.write_register(1, 0x10000000);
    p.execute(Instruction::Lbu { rd: 2, rs1: 1, imm: 0 }).unwrap();
    // 0xFF zero extended = 0x000000FF
    assert_eq!(p.read_register(2), 0x000000FF);
}

#[test]
fn test_load_with_negative_offset() {
    let mut p = processor_with_data(vec![0x42, 0x00]);
    // point rs1 past the first byte, use imm=-1 to reach it
    p.write_register(1, 0x10000001);
    p.execute(Instruction::Lb { rd: 2, rs1: 1, imm: -1 }).unwrap();
    assert_eq!(p.read_register(2), 0x42);
}

#[test]
fn test_load_out_of_bounds_returns_fault() {
    let mut p = processor_with_data(vec![0x00]);
    p.write_register(1, 0x20000000); // unmapped address
    let result = p.execute(Instruction::Lw { rd: 2, rs1: 1, imm: 0 });
    assert!(matches!(result, Err(StepError::MemoryFault(MemoryFault::OutOfBounds { address: 0x20000000 }))));
}

#[test]
fn test_store_with_negative_offset() {
    let mut p = processor_with_data(vec![0x00]);
    p.write_register(1, 0x10000001); // point rs1 past the first byte
    p.write_register(2, 0x42);
    p.execute(Instruction::Sb { rs1: 1, rs2: 2, imm: -1 }).unwrap();
    assert_eq!(p.memory.data[0], 0x42);
}

#[test]
fn test_store_out_of_bounds_returns_fault() {
    let mut p = processor_with_data(vec![0x00]);
    p.write_register(1, 0x20000000); // unmapped address
    let result = p.execute(Instruction::Sb { rs1: 1, rs2: 2, imm: 0 });
    assert!(matches!(result, Err(StepError::MemoryFault(MemoryFault::OutOfBounds { address: 0x20000000 }))));
}

#[test]
fn test_blt_signed_taken() {
    let mut p = Processor::new(0, 0, 0, 0);
    p.write_register(1, 0xFFFFFFFF); // -1 signed
    p.write_register(2, 1);
    p.pc = 0;
    p.execute(Instruction::Blt { rs1: 1, rs2: 2, imm: 8 }).unwrap();
    assert_eq!(p.pc, 8); // branch taken, -1 < 1
}

#[test]
fn test_bltu_signed_not_taken() {
    let mut p = Processor::new(0, 0, 0, 0);
    p.write_register(1, 0xFFFFFFFF); // largest unsigned
    p.write_register(2, 1);
    p.pc = 0;
    p.execute(Instruction::Bltu { rs1: 1, rs2: 2, imm: 8 }).unwrap();
    assert_eq!(p.pc, 4); // branch NOT taken, 0xFFFFFFFF > 1 unsigned
}

#[test]
fn test_jal_saves_return_address_and_jumps() {
    let mut p = Processor::new(0, 0, 0, 0);
    p.pc = 0x100;
    p.execute(Instruction::Jal { rd: 1, imm: 16 }).unwrap();
    assert_eq!(p.read_register(1), 0x104); // return address = PC+4
    assert_eq!(p.pc, 0x110);               // PC = old PC + imm
}

#[test]
fn test_jal_negative_offset() {
    let mut p = Processor::new(0, 0, 0, 0);
    p.pc = 0x100;
    p.execute(Instruction::Jal { rd: 1, imm: -4 }).unwrap();
    assert_eq!(p.read_register(1), 0x104);
    assert_eq!(p.pc, 0xFC);
}

#[test]
fn test_jalr_saves_return_address_and_jumps() {
    let mut p = Processor::new(0, 0, 0, 0);
    p.pc = 0x100;
    p.write_register(2, 0x200);
    p.execute(Instruction::Jalr { rd: 1, rs1: 2, imm: 4 }).unwrap();
    assert_eq!(p.read_register(1), 0x104); // return address = PC+4
    assert_eq!(p.pc, 0x204);              // PC = rs1 + imm
}

#[test]
fn test_jalr_clears_lsb() {
    let mut p = Processor::new(0, 0, 0, 0);
    p.pc = 0x100;
    p.write_register(2, 0x200);
    p.execute(Instruction::Jalr { rd: 1, rs1: 2, imm: 1 }).unwrap(); // rs1 + imm = 0x201
    assert_eq!(p.pc, 0x200); // LSB cleared → 0x200
}

#[test]
fn test_lui_loads_upper_immediate() {
    let mut p = Processor::new(0, 0, 0, 0);
    p.execute(Instruction::Lui { rd: 1, imm: 0x12345000 }).unwrap();
    assert_eq!(p.read_register(1), 0x12345000);
}

#[test]
fn test_lui_lower_bits_are_zero() {
    let mut p = Processor::new(0, 0, 0, 0);
    p.execute(Instruction::Lui { rd: 1, imm: 0x12345000 }).unwrap();
    // lower 12 bits must always be zero
    assert_eq!(p.read_register(1) & 0xFFF, 0);
}

#[test]
fn test_lui_ignores_pc() {
    let mut p = Processor::new(0, 0, 0, 0);
    p.pc = 0x100;
    p.execute(Instruction::Lui { rd: 1, imm: 0x12345000 }).unwrap();
    // LUI does not involve PC at all
    assert_eq!(p.read_register(1), 0x12345000);
}

#[test]
fn test_auipc_adds_pc() {
    let mut p = Processor::new(0, 0, 0, 0);
    p.pc = 0x100;
    p.execute(Instruction::Auipc { rd: 1, imm: 0x12345000 }).unwrap();
    assert_eq!(p.read_register(1), 0x12345100); // PC + imm
}

#[test]
fn test_auipc_at_pc_zero() {
    let mut p = Processor::new(0, 0, 0, 0);
    p.pc = 0x0;
    p.execute(Instruction::Auipc { rd: 1, imm: 0x12345000 }).unwrap();
    // when PC=0, result is just imm
    assert_eq!(p.read_register(1), 0x12345000);
}

#[test]
fn test_ecall_and_ebreak_surface_as_errors() {
    let mut p = Processor::new(0, 0, 0, 0);
    p.pc = 0x100;
    assert_eq!(p.execute(Instruction::Ecall), Err(StepError::Ecall));
    assert_eq!(p.pc, 0x100); // not advanced
    assert_eq!(p.execute(Instruction::Ebreak), Err(StepError::Ebreak));
    assert_eq!(p.pc, 0x100);
}

#[test]
fn test_sra_fills_with_sign_bit() {
    let mut p = Processor::new(0, 0, 0, 0);
    p.write_register(1, 0x8000_0000);
    p.write_register(2, 4);
    p.execute(Instruction::Sra { rd: 3, rs1: 1, rs2: 2 }).unwrap();
    assert_eq!(p.read_register(3), 0xF800_0000);
}

#[test]
fn test_memory_write_then_read_byte() {
    let mut p = Processor::new(0x0, 0x10000000, 0x7FFFFFFF, 1024);
    p.memory.data = vec![0u8; 8];
    p.memory.write_byte(0x10000003, 0xAB).unwrap();
    assert_eq!(p.memory.read_byte(0x10000003), Ok(0xAB));
    // an unmapped address faults the same way on read and write
    assert_eq!(
        p.memory.write_byte(0x20000000, 1),
        Err(MemoryFault::OutOfBounds { address: 0x20000000 })
    );
    assert_eq!(
        p.memory.read_byte(0x20000000),
        Err(MemoryFault::OutOfBounds { address: 0x20000000 })
    );
}

#[test]
fn test_memory_word_round_trip_is_little_endian() {
    let mut p = Processor::new(0x0, 0x10000000, 0x7FFFFFFF, 1024);
    p.memory.data = vec![0u8; 8];
    p.memory.write_word(0x10000000, 0x11223344).unwrap();
    assert_eq!(p.memory.data[0..4], [0x44, 0x33, 0x22, 0x11]);
    assert_eq!(p.memory.read_word(0x10000000), Ok(0x11223344));
    p.memory.write_half(0x10000004, 0xBEEF).unwrap();
    assert_eq!(p.memory.read_half(0x10000004), Ok(0xBEEF));
}

#[test]
fn test_load_resets_pc_and_replaces_segments() {
    let mut p = Processor::new(0x400000, 0x10010000, 0x7FFFFFFF, 16);
    let text = vec![1, 2, 3, 4];
    let data = vec![5, 6];
    p.load(&text, &data);
    assert_eq!(p.pc(), 0x400000);
    assert_eq!(p.memory.text, text);
    assert_eq!(p.memory.data, data);
    assert_eq!(p.registers().len(), 32);
    assert_eq!(p.read_memory_word(0x400000), Ok(0x04030201));
}

#[test]
fn test_load_resets_registers_to_zero() {
    let mut p = Processor::new(0x400000, 0x10010000, 0x7FFFFFFF, 16);
    p.registers[5] = 7;
    p.registers[31] = 0xFFFF_FFFF;
    p.load(&vec![0x13, 0, 0, 0], &Vec::new());
    assert_eq!(p.registers(), &vec![0u32; 32]);
}

#[test]
fn test_decode_rejects_non_canonical_system_words() {
    let p = Processor::new(0, 0, 0, 0);
    // ecall/ebreak are single fixed words: any other rd, rs1 or funct3 is illegal
    assert_eq!(p.decode(0x00001073), Err(StepError::IllegalInstruction));
    assert_eq!(p.decode(0x00000873), Err(StepError::IllegalInstruction));
    assert_eq!(p.decode(0x00108073), Err(StepError::IllegalInstruction));
    assert_eq!(p.decode(0x00200073), Err(StepError::IllegalInstruction));
}

#[test]
fn test_decode_rejects_non_canonical_fence_words() {
    let p = Processor::new(0, 0, 0, 0);
    assert_eq!(p.decode(0x0000000F).unwrap(), Instruction::Fence);
    assert_eq!(p.decode(0x0100000F), Err(StepError::IllegalInstruction));
    assert_eq!(p.decode(0x0000100F), Err(StepError::IllegalInstruction));
}

#[test]
fn test_fetch_outside_text_reports_fault_at_pc() {
    let mut p = Processor::new(0x400000, 0, 0, 0);
    p.memory.text = vec![0x13, 0x00, 0x00, 0x00];
    p.pc = 0x3FFFFC;
    assert_eq!(
        p.step(),
        Err(StepError::MemoryFault(MemoryFault::OutOfBounds { address: 0x3FFFFC }))
    );
}

#[test]
fn test_step_on_undecodable_word_is_illegal_instruction() {
    let mut p = Processor::new(0x400000, 0, 0, 0);
    p.memory.text = vec![0xFF, 0xFF, 0xFF, 0xFF];
    p.pc = 0x400000;
    assert_eq!(p.step(), Err(StepError::IllegalInstruction));
    assert_eq!(p.pc, 0x400000);
}
