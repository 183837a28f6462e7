use rv32i::lexer::{tokenize, Token};

#[test]
fn test_tokenize() {
    let source = "add x2, zero, x3\nsub x4, x5, x6";
    let tokens = tokenize(source).unwrap();

    assert_eq!(tokens.len(), 14); // 13 tokens + Eof

    assert_eq!(tokens[0].token, Token::Instruction("add".to_string()));
    assert_eq!(tokens[1].token, Token::Register(2));
    assert_eq!(tokens[2].token, Token::Comma);
    assert_eq!(tokens[3].token, Token::Register(0));
    assert_eq!(tokens[4].token, Token::Comma);
    assert_eq!(tokens[5].token, Token::Register(3));
    assert_eq!(tokens[6].token, Token::Newline);
    assert_eq!(tokens[7].token, Token::Instruction("sub".to_string()));
    assert_eq!(tokens[8].token, Token::Register(4));
    assert_eq!(tokens[9].token, Token::Comma);
    assert_eq!(tokens[10].token, Token::Register(5));
    assert_eq!(tokens[11].token, Token::Comma);
    assert_eq!(tokens[12].token, Token::Register(6));
    assert_eq!(tokens[13].token, Token::Eof);
}

#[test]
fn test_tokenize_label_and_comment() {
    let source = "loop: add x1, x1, x2 # This is a comment\n";
    let tokens = tokenize(source).unwrap();

    assert_eq!(tokens.len(), 10); // 9 tokens + Eof

    assert_eq!(tokens[0].token, Token::Label("loop".to_string()));
    assert_eq!(tokens[1].token, Token::Colon);
    assert_eq!(tokens[2].token, Token::Instruction("add".to_string()));
    assert_eq!(tokens[3].token, Token::Register(1));
    assert_eq!(tokens[4].token, Token::Comma);
    assert_eq!(tokens[5].token, Token::Register(1));
    assert_eq!(tokens[6].token, Token::Comma);
    assert_eq!(tokens[7].token, Token::Register(2));
    assert_eq!(tokens[8].token, Token::Newline);
    assert_eq!(tokens[9].token, Token::Eof);
}

#[test]
fn test_directives() {
    let source = ".text\n.align 2\n.global main";
    let tokens = tokenize(source).unwrap();
    assert_eq!(tokens.len(), 8); // 7 tokens + Eof
    assert_eq!(tokens[0].token, Token::Directive(".text".to_string()));
    assert_eq!(tokens[1].token, Token::Newline);
    assert_eq!(tokens[2].token, Token::Directive(".align".to_string()));
    assert_eq!(tokens[3].token, Token::Immediate(2));
    assert_eq!(tokens[4].token, Token::Newline);
    assert_eq!(tokens[5].token, Token::Directive(".global".to_string()));
    assert_eq!(tokens[6].token, Token::Label("main".to_string()));
    assert_eq!(tokens[7].token, Token::Eof);
}

#[test]
fn test_strings() {
    let source = r#".string "Hello, %s!\n""#;
    let tokens = tokenize(source).unwrap();
    assert_eq!(tokens.len(), 3); // 2 tokens + Eof
    assert_eq!(tokens[0].token, Token::Directive(".string".to_string()));
    assert_eq!(tokens[1].token, Token::StringLiteral("Hello, %s!\n".to_string()));
}

#[test]
fn test_immediate_negative_numbers() {
    let source = "addi sp, sp, -16";
    let tokens = tokenize(source).unwrap();
    assert_eq!(tokens.len(), 7); // 6 tokens + Eof
    assert_eq!(tokens[0].token, Token::Instruction("addi".to_string()));
    assert_eq!(tokens[1].token, Token::Register(2));
    assert_eq!(tokens[2].token, Token::Comma);
    assert_eq!(tokens[3].token, Token::Register(2));
    assert_eq!(tokens[4].token, Token::Comma);
    assert_eq!(tokens[5].token, Token::Immediate(-16));
}

#[test]
fn test_inmediate_hexadecimal() {
    let source = "addi a0, sp, 0xFF";
    let tokens = tokenize(source).unwrap();
    assert_eq!(tokens.len(), 7); // 6 tokens + Eof
    assert_eq!(tokens[0].token, Token::Instruction("addi".to_string()));
    assert_eq!(tokens[1].token, Token::Register(10));
    assert_eq!(tokens[2].token, Token::Comma);
    assert_eq!(tokens[3].token, Token::Register(2));
    assert_eq!(tokens[4].token, Token::Comma);
    assert_eq!(tokens[5].token, Token::Immediate(255)); // 0xFF is 255 in decimal
}

#[test]
fn test_binary_and_octal_literals() {
    let tokens = tokenize("addi x1, x0, 0b1010\naddi x2, x0, 0o17").unwrap();
    assert_eq!(tokens[5].token, Token::Immediate(10));
    assert_eq!(tokens[12].token, Token::Immediate(0o17));
}

#[test]
fn test_numeric_overflow_is_rejected() {
    let err = tokenize("addi x1, x0, 0xFFFFFFFF").unwrap_err();
    assert_eq!(err.reason, rv32i::lexer::LexReason::NumericOverflow);
    assert_eq!(err.line, 1);
}

#[test]
fn test_most_negative_immediate_is_accepted() {
    let tokens = tokenize("-2147483648").unwrap();
    assert_eq!(tokens[0].token, Token::Immediate(i32::MIN));
}

#[test]
fn test_unexpected_character_is_rejected() {
    let err = tokenize("add @").unwrap_err();
    assert_eq!(err.reason, rv32i::lexer::LexReason::UnexpectedChar);
    assert_eq!(err.line, 1);
    assert_eq!(err.column, 5);
}

#[test]
fn test_unterminated_string_is_rejected() {
    let err = tokenize(".ascii \"abc").unwrap_err();
    assert_eq!(err.reason, rv32i::lexer::LexReason::UnterminatedString);
}

#[test]
fn test_unknown_escape_is_rejected() {
    let err = tokenize(r#".ascii "a\q""#).unwrap_err();
    assert_eq!(err.reason, rv32i::lexer::LexReason::UnknownEscape);
}

#[test]
fn test_register_aliases_and_bounds() {
    let tokens = tokenize("fp s0 t6 x31 x32 x007").unwrap();
    assert_eq!(tokens[0].token, Token::Register(8));
    assert_eq!(tokens[1].token, Token::Register(8));
    assert_eq!(tokens[2].token, Token::Register(31));
    assert_eq!(tokens[3].token, Token::Register(31));
    assert_eq!(tokens[4].token, Token::Label("x32".to_string()));
    assert_eq!(tokens[5].token, Token::Register(7));
}
