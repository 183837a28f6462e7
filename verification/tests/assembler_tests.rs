use rv32i::assembler::Assembler;
use rv32i::parser::{MemoryOffset, Operand, Statement, StatementKind};
use rv32i::symbols::SymbolTable;

fn new_sym_table() -> SymbolTable {
    SymbolTable::new(rv32i::config::TEXT_BASE, rv32i::config::DATA_BASE)
}

#[test]
fn test_assemble_simple_program() {
    let mut assembler = Assembler::new();
    let sym_table = new_sym_table();
    let statements = vec![
        Statement {
            kind: StatementKind::Instruction("add".to_string(), vec![
                Operand::Register(1),
                Operand::Register(2),
                Operand::Register(3),
            ]),
            line: 1,
        },
        Statement {
            kind: StatementKind::Directive(".data".to_string(), vec![]),
            line: 2,
        },
        Statement {
            kind: StatementKind::Directive(".word".to_string(), vec![
                Operand::Immediate(42),
            ]),
            line: 3,
        },
    ];
    assembler.assemble(&statements, &sym_table).expect("Assembly should succeed");
    assert_eq!(assembler.text_bin.len(), 4);
    assert_eq!(assembler.data_bin.len(), 4);

    assert_eq!(
        assembler.text_bin,
        vec![
            0b10110011, // Byte 0: rd[0] + opcode
            0b00000000, // Byte 1: rs1[0] + funct3 + rd[4:1]
            0b00110001, // Byte 2: rs2[4:1] + rs1[4:1]
            0b00000000, // Byte 3: funct7 + rs2[0]
        ]
    );
    assert_eq!(assembler.data_bin, vec![0x2A, 0x00, 0x00, 0x00]); // .word 42
}

#[test]
fn test_unsupported_instruction() {
    let mut assembler = Assembler::new();
    let sym_table = new_sym_table();
    let statements = vec![
        Statement {
            kind: StatementKind::Instruction("mul".to_string(), vec![
                Operand::Register(1),
                Operand::Register(2),
                Operand::Register(3),
            ]),
            line: 5,
        },
    ];

    let result = assembler.assemble(&statements, &sym_table);
    assert!(result.is_err());
    let errors = result.unwrap_err();
    assert_eq!(errors.len(), 1);
    assert_eq!(errors[0].line, 5);
    assert!(errors[0].message.contains("Unsupported instruction 'mul'"));
}

#[test]
fn test_invalid_r_type_operands() {
    let mut assembler = Assembler::new();
    let sym_table = new_sym_table();
    let statements = vec![
        Statement {
            kind: StatementKind::Instruction("add".to_string(), vec![
                Operand::Register(1),
                Operand::Register(2),
                Operand::Immediate(5), // Should be a register
            ]),
            line: 10,
        },
    ];

    let result = assembler.assemble(&statements, &sym_table);
    assert!(result.is_err());
    let errors = result.unwrap_err();
    assert_eq!(errors.len(), 1);
    assert_eq!(errors[0].line, 10);
    assert!(errors[0].message.contains("Invalid operands for R-type"));
}

#[test]
fn test_invalid_i_type_operands() {
    let mut assembler = Assembler::new();
    let sym_table = new_sym_table();
    let statements = vec![
        Statement {
            kind: StatementKind::Instruction("lw".to_string(), vec![
                Operand::Register(1),
                Operand::Register(2),
                Operand::Register(3), // Should be immediate
            ]),
            line: 15,
        },
    ];

    let result = assembler.assemble(&statements, &sym_table);
    assert!(result.is_err());
    let errors = result.unwrap_err();
    assert_eq!(errors.len(), 1);
    assert_eq!(errors[0].line, 15);
    assert!(errors[0].message.contains("Invalid operands for I-type"));
}

#[test]
fn test_invalid_s_type_operands() {
    let mut assembler = Assembler::new();
    let sym_table = new_sym_table();
    let statements = vec![
        Statement {
            kind: StatementKind::Instruction("sw".to_string(), vec![
                Operand::Register(1),
                Operand::Register(2), // Should be memory operand
            ]),
            line: 20,
        },
    ];

    let result = assembler.assemble(&statements, &sym_table);
    assert!(result.is_err());
    let errors = result.unwrap_err();
    assert_eq!(errors.len(), 1);
    assert_eq!(errors[0].line, 20);
    assert!(errors[0].message.contains("Invalid operands for S-type"));
}

#[test]
fn test_invalid_b_type_operands() {
    let mut assembler = Assembler::new();
    let sym_table = new_sym_table();
    let statements = vec![
        Statement {
            kind: StatementKind::Instruction("beq".to_string(), vec![
                Operand::Register(1),
                Operand::Immediate(5), // Should be register
                Operand::Immediate(100),
            ]),
            line: 25,
        },
    ];

    let result = assembler.assemble(&statements, &sym_table);
    assert!(result.is_err());
    let errors = result.unwrap_err();
    assert_eq!(errors.len(), 1);
    assert_eq!(errors[0].line, 25);
    assert!(errors[0].message.contains("Invalid operands for B-type"));
}

#[test]
fn test_invalid_j_type_operands() {
    let mut assembler = Assembler::new();
    let sym_table = new_sym_table();
    let statements = vec![
        Statement {
            kind: StatementKind::Instruction("jal".to_string(), vec![
                Operand::Immediate(100), // Missing destination register
            ]),
            line: 30,
        },
    ];

    let result = assembler.assemble(&statements, &sym_table);
    assert!(result.is_err());
    let errors = result.unwrap_err();
    assert_eq!(errors.len(), 1);
    assert_eq!(errors[0].line, 30);
    assert!(errors[0].message.contains("Invalid operands for J-type"));
}

#[test]
fn test_unsupported_directive() {
    let mut assembler = Assembler::new();
    let sym_table = new_sym_table();
    let statements = vec![
        Statement {
            kind: StatementKind::Directive(".float".to_string(), vec![
                Operand::Immediate(42),
            ]),
            line: 35,
        },
    ];

    let result = assembler.assemble(&statements, &sym_table);
    assert!(result.is_err());
    let errors = result.unwrap_err();
    assert_eq!(errors.len(), 1);
    assert_eq!(errors[0].line, 35);
    assert!(errors[0].message.contains("Unsupported directive '.float'"));
}

#[test]
fn test_invalid_directive_operands() {
    let mut assembler = Assembler::new();
    let sym_table = new_sym_table();
    let statements = vec![
        Statement {
            kind: StatementKind::Directive(".word".to_string(), vec![
                Operand::Register(1), // Should be immediate
            ]),
            line: 40,
        },
    ];

    let result = assembler.assemble(&statements, &sym_table);
    assert!(result.is_err());
    let errors = result.unwrap_err();
    assert_eq!(errors.len(), 1);
    assert_eq!(errors[0].line, 40);
    assert!(errors[0].message.contains("Invalid operand for .word directive"));
}

#[test]
fn test_multiple_errors() {
    let mut assembler = Assembler::new();
    let sym_table = new_sym_table();
    let statements = vec![
        Statement {
            kind: StatementKind::Instruction("mul".to_string(), vec![
                Operand::Register(1),
                Operand::Register(2),
                Operand::Register(3),
            ]),
            line: 1,
        },
        Statement {
            kind: StatementKind::Instruction("add".to_string(), vec![
                Operand::Register(1),
                Operand::Register(2),
                Operand::Register(3),
            ]),
            line: 2,
        },
        Statement {
            kind: StatementKind::Instruction("div".to_string(), vec![
                Operand::Register(4),
                Operand::Register(5),
                Operand::Register(6),
            ]),
            line: 3,
        },
        Statement {
            kind: StatementKind::Directive(".float".to_string(), vec![
                Operand::Immediate(42),
            ]),
            line: 4,
        },
    ];

    let result = assembler.assemble(&statements, &sym_table);
    assert!(result.is_err());
    let errors = result.unwrap_err();
    // Should collect all 3 errors (mul, div, .float), but not the valid add
    assert_eq!(errors.len(), 3);
    assert_eq!(errors[0].line, 1);
    assert!(errors[0].message.contains("Unsupported instruction 'mul'"));
    assert_eq!(errors[1].line, 3);
    assert!(errors[1].message.contains("Unsupported instruction 'div'"));
    assert_eq!(errors[2].line, 4);
    assert!(errors[2].message.contains("Unsupported directive '.float'"));

    // Verify that the valid instruction was assembled
    assert_eq!(assembler.text_bin.len(), 4);
}

#[test]
fn test_assemble_i_type_instruction() {
    let mut assembler = Assembler::new();
    let sym_table = new_sym_table();
    let statements = vec![
        Statement {
            kind: StatementKind::Instruction("addi".to_string(), vec![
                Operand::Register(19),
                Operand::Register(20),
                Operand::Immediate(8),
            ]),
            line: 1,
        },
    ];

    let result = assembler.assemble(&statements, &sym_table);
    assert!(result.is_ok());
    let instructions = assembler.text_bin;
    assert_eq!(instructions.len(), 4);
    assert_eq!(
        instructions[0..4],
        vec![
            // Byte 0: rd[0] (1) + opcode (0010011)
            0b10010011,
            // Byte 1: rs1[0] (0) + funct3 (000) + rd[4:1] (1001)
            0b00001001,
            // Byte 2: imm[3:0] (1000) + rs1[4:1] (1010)
            0b10001010,
            // Byte 3: imm[11:4] (00000000)
            0b00000000,
    ]);
}

#[test]
fn test_assemble_i_type_instruction_with_negative_immediate() {
    let mut assembler = Assembler::new();
    let sym_table = new_sym_table();
    let statements = vec![
        Statement {
            kind: StatementKind::Instruction("addi".to_string(), vec![
                Operand::Register(19),
                Operand::Register(20),
                Operand::Immediate(-8),
            ]),
            line: 1,
        },
    ];

    let result = assembler.assemble(&statements, &sym_table);
    assert!(result.is_ok());
    let instructions = assembler.text_bin;
    assert_eq!(instructions.len(), 4);
    assert_eq!(
        instructions[0..4],
        vec![
            // Byte 0: rd[0] (1) + opcode (0010011)
            0b10010011,
            // Byte 1: rs1[0] (0) + funct3 (000) + rd[4:1] (1001)
            0b00001001,
            // Byte 2: imm[3:0] (1000) + rs1[4:1] (1010)
            0b10001010,
            // Byte 3: imm[11:4] (00000000)
            0b11111111,
    ]);
}

#[test]
fn test_s_instruction_with_unknown_label() {
    let mut assembler = Assembler::new();
    let sym_table = new_sym_table();
    let statements = vec![
        Statement {
            kind: StatementKind::Instruction("sw".to_string(), vec![
                Operand::Register(19),
                Operand::Memory {
                    offset: MemoryOffset::Label("unknown".to_string()),
                    reg: 0
                },
            ]),
            line: 1,
        },
    ];

    let result = assembler.assemble(&statements, &sym_table);
    assert!(result.is_err());
    let errors = result.unwrap_err();
    assert_eq!(errors.len(), 1);
    assert_eq!(errors[0].line, 1);
    assert!(errors[0].message.contains("Unknown label 'unknown'"));
}

#[test]
fn test_encoding_of_i_shift_instruction() {
    let mut assembler = Assembler::new();
    let sym_table = new_sym_table();
    let statements = vec![
        Statement {
            kind: StatementKind::Instruction("srai".to_string(), vec![
                Operand::Register(10),
                Operand::Register(11),
                Operand::Immediate(4),
            ]),
            line: 1,
        },
    ];

    let result = assembler.assemble(&statements, &sym_table);
    assert!(result.is_ok());
    let instructions = assembler.text_bin;
    assert_eq!(instructions.len(), 4);
    // srai x10, x11, 4
    // opcode=0x13, rd=10, funct3=0x5, rs1=11, shamt=4, funct7=0x20
    assert_eq!(
        instructions,
        vec![
            0b00010011, // 19  (rd[0]=0 + opcode=0x13)
            0b11010101, // 213 (rs1[0]=1 + funct3=101 + rd[4:1]=0101)
            0b01000101, // 69  (shamt[3:0]=0100 + rs1[4:1]=0101)
            0b01000000, // 64  (funct7=0100000 + shamt[4]=0)
        ]
    );
}

#[test]
fn test_shift_amount_out_of_range_is_an_error() {
    let mut assembler = Assembler::new();
    let sym_table = new_sym_table();
    let statements = vec![Statement {
        kind: StatementKind::Instruction("slli".to_string(), vec![
            Operand::Register(1),
            Operand::Register(2),
            Operand::Immediate(32),
        ]),
        line: 1,
    }];
    let errors = assembler.assemble(&statements, &sym_table).unwrap_err();
    assert!(errors[0].message.contains("Shift amount 32 out of range (0-31)"));
}

#[test]
fn test_debug_map_records_statement_addresses() {
    let mut assembler = Assembler::new();
    let sym_table = new_sym_table();
    let statements = vec![
        Statement {
            kind: StatementKind::Instruction("add".to_string(), vec![
                Operand::Register(1),
                Operand::Register(2),
                Operand::Register(3),
            ]),
            line: 1,
        },
        Statement {
            kind: StatementKind::Instruction("sub".to_string(), vec![
                Operand::Register(4),
                Operand::Register(5),
                Operand::Register(6),
            ]),
            line: 2,
        },
    ];
    assembler.assemble(&statements, &sym_table).unwrap();
    let dbg = &assembler.debug_info.address_to_source;
    assert_eq!(dbg.len(), 2);
    assert_eq!(dbg[0].0, rv32i::config::TEXT_BASE);
    assert_eq!(dbg[0].1.raw_text, "add x1, x2, x3");
    assert_eq!(dbg[0].1.line, 1);
    assert_eq!(dbg[0].1.section, ".text");
    assert_eq!(dbg[1].0, rv32i::config::TEXT_BASE + 4);
    assert_eq!(dbg[1].1.raw_text, "sub x4, x5, x6");
}

#[test]
fn test_compile_end_to_end() {
    let (text, data, _dbg) =
        rv32i::assembler::compile(".data\nnum: .word 42\n.text\naddi x1, x0, 5\n").unwrap();
    assert_eq!(text, vec![0x93, 0x00, 0x50, 0x00]); // addi x1, x0, 5
    assert_eq!(data, vec![0x2A, 0x00, 0x00, 0x00]);
}

#[test]
fn test_compile_reports_lex_error() {
    let errors = rv32i::assembler::compile("add @\n").unwrap_err();
    assert_eq!(errors.len(), 1);
    assert!(errors[0].message.contains("Lex error"));
}
