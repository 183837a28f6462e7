use rv32i::lexer::tokenize;
use rv32i::parser::{MemoryOffset, Operand, Parser, StatementKind};

#[test]
fn test_r_instruction_parsing() {
    let tokens = tokenize("add x1, x2, x3").unwrap();
    let mut parser = Parser::new(tokens);
    let nodes = parser.parse().unwrap();
    assert_eq!(nodes.len(), 1);
    assert_eq!(nodes[0].kind, StatementKind::Instruction("add".to_string(), vec![
        Operand::Register(1),
        Operand::Register(2),
        Operand::Register(3),
    ]));
    assert_eq!(nodes[0].line, 1);
}

#[test]
fn test_i_instruction_parsing() {
    let tokens = tokenize("addi x1, x2, 10").unwrap();
    let mut parser = Parser::new(tokens);
    let nodes = parser.parse().unwrap();
    assert_eq!(nodes.len(), 1);
    assert_eq!(nodes[0].kind, StatementKind::Instruction("addi".to_string(), vec![
        Operand::Register(1),
        Operand::Register(2),
        Operand::Immediate(10),
    ]));
    assert_eq!(nodes[0].line, 1);
}

#[test]
fn test_s_instruction_parsing() {
    let tokens = tokenize("sw x1, 4(x2)").unwrap();
    let mut parser = Parser::new(tokens);
    let nodes = parser.parse().unwrap();
    assert_eq!(nodes.len(), 1);
    assert_eq!(nodes[0].kind, StatementKind::Instruction("sw".to_string(), vec![
        Operand::Register(1),
        Operand::Memory { offset: MemoryOffset::Immediate(4), reg: 2 },
    ]));
    assert_eq!(nodes[0].line, 1);
}

#[test]
fn test_label_parsing() {
    let tokens = tokenize("loop:\nadd x1, x2, x3").unwrap();
    println!("{:#?}", tokens);
    let mut parser = Parser::new(tokens);
    let nodes = parser.parse().unwrap();
    assert_eq!(nodes.len(), 2);
    assert_eq!(nodes[0].kind, StatementKind::Label("loop".to_string()));
    assert_eq!(nodes[0].line, 1);
    assert_eq!(nodes[1].kind, StatementKind::Instruction("add".to_string(), vec![
        Operand::Register(1),
        Operand::Register(2),
        Operand::Register(3),
    ]));
    assert_eq!(nodes[1].line, 2);
}

#[test]
fn test_directive_parsing() {
    let tokens = tokenize(".data\nmyVar: .word 42").unwrap();
    let mut parser = Parser::new(tokens);
    let nodes = parser.parse().unwrap();
    assert_eq!(nodes.len(), 3);
    assert_eq!(nodes[0].kind, StatementKind::Directive(".data".to_string(), vec![]));
    assert_eq!(nodes[0].line, 1);
    assert_eq!(nodes[1].kind, StatementKind::Label("myVar".to_string()));
    assert_eq!(nodes[1].line, 2);
    assert_eq!(nodes[2].kind, StatementKind::Directive(".word".to_string(), vec![
        Operand::Immediate(42),
    ]));
    assert_eq!(nodes[2].line, 2);
}

#[test]
fn test_directive_with_string_parsing() {
    let tokens = tokenize(".asciiz \"Hello, world!\"").unwrap();
    let mut parser = Parser::new(tokens);
    let nodes = parser.parse().unwrap();
    assert_eq!(nodes.len(), 1);
    assert_eq!(nodes[0].kind, StatementKind::Directive(".asciiz".to_string(), vec![
        Operand::StringLiteral("Hello, world!".to_string()),
    ]));
    assert_eq!(nodes[0].line, 1);
}

#[test]
fn test_label_in_memory_operand_parsing() {
    let tokens = tokenize("sw x1, my_label(x2)").unwrap();
    let mut parser = Parser::new(tokens);
    let nodes = parser.parse().unwrap();
    assert_eq!(nodes.len(), 1);
    assert_eq!(nodes[0].kind, StatementKind::Instruction("sw".to_string(), vec![
        Operand::Register(1),
        Operand::Memory { offset: MemoryOffset::Label("my_label".to_string()), reg: 2 },
    ]));
    assert_eq!(nodes[0].line, 1);
}

#[test]
fn test_missing_colon_after_label_is_an_error() {
    let tokens = tokenize("loop add x1, x2, x3").unwrap();
    let mut parser = Parser::new(tokens);
    let err = parser.parse().unwrap_err();
    assert_eq!(err.line, 1);
    assert!(err.message.contains("colon"));
    assert!(err.message.contains("instruction 'add'")); // the token found instead
}

#[test]
fn test_missing_register_in_memory_operand_is_an_error() {
    let tokens = tokenize("sw x1, 4(7)").unwrap();
    let mut parser = Parser::new(tokens);
    let err = parser.parse().unwrap_err();
    assert!(err.message.contains("register was expected inside parentheses"));
    assert!(err.message.contains("immediate 7")); // the token found instead
}

#[test]
fn test_statement_starting_with_comma_is_an_error() {
    let tokens = tokenize(", add").unwrap();
    let mut parser = Parser::new(tokens);
    let err = parser.parse().unwrap_err();
    assert!(err.message.contains("Unexpected token: ','"));
}
