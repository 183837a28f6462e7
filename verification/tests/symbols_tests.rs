use rv32i::config;
use rv32i::lexer::tokenize;
use rv32i::parser::Parser;
use rv32i::symbols::SymbolTable;

#[test]
fn test_symbol_table() {
    let source = "
        .data
        msg: .asciz \"Hi!\"
        num: .word 42

        .text
        main:
            addi x1, x0, 42
        final:

        .data
        text: .asciz \"This is a test\"
    ";

    let tokens = tokenize(source).unwrap();
    let mut parser = Parser::new(tokens);
    let statements = parser.parse().unwrap();

    let mut sym_table = SymbolTable::new(config::TEXT_BASE, config::DATA_BASE);
    sym_table.build(&statements).unwrap();

    assert_eq!(sym_table.get_address("main"), Some(config::TEXT_BASE));
    assert_eq!(sym_table.get_address("final"), Some(config::TEXT_BASE + 4)); // 4 bytes for the instruction
    assert_eq!(sym_table.get_address("msg"), Some(config::DATA_BASE));
    assert_eq!(sym_table.get_address("num"), Some(config::DATA_BASE + 4)); // 3 bytes for the string "Hi!" + 1 for \0
    assert_eq!(sym_table.get_address("text"), Some(config::DATA_BASE + 4 + 4)); // 4 bytes for the word
}

#[test]
fn test_symbol_table_with_align() {
    let source = r#"
        .data
        .string "Hi"
        .align 4
        my_aligned_label: .byte 0xFF
    "#;

    let tokens = tokenize(source).unwrap();
    let mut parser = Parser::new(tokens);
    let statements = parser.parse().unwrap();

    let mut sym_table = SymbolTable::new(config::TEXT_BASE, config::DATA_BASE);
    sym_table.build(&statements).unwrap();

    assert_eq!(sym_table.get_address("my_aligned_label"), Some(config::DATA_BASE + 0x10)) // 3 for "Hi" + 1 for \0, then aligned to 4 bytes
}

#[test]
fn test_duplicated_label() {
    let source = r#"
        .data
        msg: .asciz "Hi!"
        msg: .asciz "Hello!"
    "#;

    let tokens = tokenize(source).unwrap();
    let mut parser = Parser::new(tokens);
    let statements = parser.parse().unwrap();

    let mut sym_table = SymbolTable::new(config::TEXT_BASE, config::DATA_BASE);
    assert!(sym_table.build(&statements).is_err());
}

#[test]
fn test_instruction_in_data_section_is_an_error() {
    let tokens = tokenize(".data\nadd x1, x2, x3").unwrap();
    let mut parser = Parser::new(tokens);
    let statements = parser.parse().unwrap();
    let mut sym_table = SymbolTable::new(config::TEXT_BASE, config::DATA_BASE);
    let err = sym_table.build(&statements).unwrap_err();
    assert!(err.contains("Instruction found on .data section"));
}

#[test]
fn test_align_without_operand_is_an_error() {
    let tokens = tokenize(".data\n.align").unwrap();
    let mut parser = Parser::new(tokens);
    let statements = parser.parse().unwrap();
    let mut sym_table = SymbolTable::new(config::TEXT_BASE, config::DATA_BASE);
    let err = sym_table.build(&statements).unwrap_err();
    assert!(err.contains(".align"));
}

#[test]
fn test_space_and_half_sizes() {
    let tokens = tokenize(".data\n.space 3\na: .half 1, 2\nb:").unwrap();
    let mut parser = Parser::new(tokens);
    let statements = parser.parse().unwrap();
    let mut sym_table = SymbolTable::new(rv32i::config::TEXT_BASE, rv32i::config::DATA_BASE);
    sym_table.build(&statements).unwrap();
    assert_eq!(sym_table.get_address("a"), Some(rv32i::config::DATA_BASE + 3));
    assert_eq!(sym_table.get_address("b"), Some(rv32i::config::DATA_BASE + 7));
}
