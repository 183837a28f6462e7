//! The lexer: source text to a positioned token stream.
//!
//! The accepted dialect is ASCII assembly text. The lexer works over the
//! UTF-8 bytes of the source; any byte outside the recognized ASCII
//! repertoire is reported as an unexpected character.

use vstd::prelude::*;
use vstd::string::StringSliceAdditionalSpecFns;

verus! {

/// A lexical atom.
#[derive(Debug, PartialEq, Clone)]
pub enum Token {
    Instruction(String),
    Register(u8),
    Immediate(i32),
    StringLiteral(String),
    Label(String),
    Colon,
    Directive(String),
    Comma,
    LParenthesis,
    RParenthesis,
    Newline,
    Eof,
}

/// A token paired with the 1-based line and column of its first character.
#[derive(Debug, Clone)]
pub struct SpannedToken {
    pub token: Token,
    pub line: usize,
    pub column: usize,
}

/// Why the lexer rejected the source text.
#[derive(Debug, PartialEq, Eq, Structural, Clone, Copy)]
pub enum LexReason {
    UnexpectedChar,
    UnterminatedString,
    UnknownEscape,
    NumericOverflow,
}

/// A lexical error at a 1-based line and column.
#[derive(Debug, PartialEq, Eq, Structural, Clone, Copy)]
pub struct LexError {
    pub line: usize,
    pub column: usize,
    pub reason: LexReason,
}

/// Mathematical model of a token: string contents as character sequences.
pub enum TokenModel {
    Instruction(Seq<char>),
    Register(u8),
    Immediate(i32),
    StringLiteral(Seq<char>),
    Label(Seq<char>),
    Colon,
    Directive(Seq<char>),
    Comma,
    LParenthesis,
    RParenthesis,
    Newline,
    Eof,
}

/// Mathematical model of a positioned token.
pub struct SpannedTokenModel {
    pub token: TokenModel,
    pub line: int,
    pub column: int,
}

/// Mathematical model of a lexical error.
pub struct LexErrorModel {
    pub line: int,
    pub column: int,
    pub reason: LexReason,
}

impl View for Token {
    type V = TokenModel;

    open spec fn view(&self) -> TokenModel {
        match self {
            Token::Instruction(s) => TokenModel::Instruction(s@),
            Token::Register(n) => TokenModel::Register(*n),
            Token::Immediate(v) => TokenModel::Immediate(*v),
            Token::StringLiteral(s) => TokenModel::StringLiteral(s@),
            Token::Label(s) => TokenModel::Label(s@),
            Token::Colon => TokenModel::Colon,
            Token::Directive(s) => TokenModel::Directive(s@),
            Token::Comma => TokenModel::Comma,
            Token::LParenthesis => TokenModel::LParenthesis,
            Token::RParenthesis => TokenModel::RParenthesis,
            Token::Newline => TokenModel::Newline,
            Token::Eof => TokenModel::Eof,
        }
    }
}

impl View for SpannedToken {
    type V = SpannedTokenModel;

    open spec fn view(&self) -> SpannedTokenModel {
        SpannedTokenModel { token: self.token@, line: self.line as int, column: self.column as int }
    }
}

impl View for LexError {
    type V = LexErrorModel;

    open spec fn view(&self) -> LexErrorModel {
        LexErrorModel {
            line: self.line as int,
            column: self.column as int,
            reason: self.reason,
        }
    }
}

/// The bytes of an ASCII run read as characters.
pub open spec fn chars_of(bs: Seq<u8>) -> Seq<char> {
    bs.map(|k: int, b: u8| b as char)
}

/// Space or horizontal tab.
pub open spec fn is_ws(b: u8) -> bool {
    b == 32 || b == 9
}

/// An ASCII decimal digit.
pub open spec fn is_digit_b(b: u8) -> bool {
    48 <= b <= 57
}

/// A byte that may start an identifier: an ASCII letter or underscore.
pub open spec fn is_ident_start(b: u8) -> bool {
    (65 <= b <= 90) || (97 <= b <= 122) || b == 95
}

/// A byte that may continue an identifier or directive name.
pub open spec fn is_ident_cont(b: u8) -> bool {
    is_ident_start(b) || is_digit_b(b)
}

/// A digit of the given radix (2, 8, 10 or 16).
pub open spec fn is_digit_of(b: u8, radix: int) -> bool {
    if radix == 16 {
        is_digit_b(b) || (97 <= b <= 102) || (65 <= b <= 70)
    } else {
        48 <= b < 48 + radix
    }
}

/// The numeric value of one digit byte.
pub open spec fn digit_val(b: u8) -> int {
    if 48 <= b <= 57 {
        b - 48
    } else if 97 <= b <= 102 {
        b - 87
    } else {
        b - 55
    }
}

/// The value of the digit run `s[i..j)` in the given radix.
pub open spec fn digits_val(s: Seq<u8>, i: int, j: int, radix: int) -> int
    decreases j - i,
{
    if j <= i {
        0
    } else {
        digits_val(s, i, j - 1, radix) * radix + digit_val(s[j - 1])
    }
}

/// The index just past the digit run of the given radix starting at `i`.
pub open spec fn digits_end(s: Seq<u8>, i: int, radix: int) -> int
    decreases s.len() - i,
{
    if 0 <= i < s.len() && is_digit_of(s[i], radix) {
        digits_end(s, i + 1, radix)
    } else {
        i
    }
}

/// The index just past the identifier run starting at `i`.
pub open spec fn ident_end(s: Seq<u8>, i: int) -> int
    decreases s.len() - i,
{
    if 0 <= i < s.len() && is_ident_cont(s[i]) {
        ident_end(s, i + 1)
    } else {
        i
    }
}

/// The index of the newline ending the comment that starts before `i`, or
/// the end of the input.
pub open spec fn comment_end(s: Seq<u8>, i: int) -> int
    decreases s.len() - i,
{
    if 0 <= i < s.len() && s[i] != 10 {
        comment_end(s, i + 1)
    } else {
        i
    }
}

/// Scan the body of a string literal starting at `i` (just after the
/// opening quote): the content with escapes decoded and the index just past
/// the closing quote, or the reason and byte index of a failure.
pub open spec fn str_scan(s: Seq<u8>, i: int) -> Result<(Seq<char>, int), (LexReason, int)>
    decreases s.len() - i,
{
    if i < 0 || i >= s.len() {
        Err((LexReason::UnterminatedString, i))
    } else if s[i] == 34 {
        Ok((Seq::empty(), i + 1))
    } else if s[i] == 92 {
        if i + 1 >= s.len() {
            Err((LexReason::UnterminatedString, i + 1))
        } else {
            let e = s[i + 1];
            if e == 110 || e == 116 || e == 92 || e == 34 {
                let c = if e == 110 {
                    '\n'
                } else if e == 116 {
                    '\t'
                } else if e == 92 {
                    '\\'
                } else {
                    '"'
                };
                match str_scan(s, i + 2) {
                    Ok((content, end)) => Ok((seq![c] + content, end)),
                    Err(err) => Err(err),
                }
            } else {
                Err((LexReason::UnknownEscape, i + 1))
            }
        }
    } else if s[i] < 0x80 {
        match str_scan(s, i + 1) {
            Ok((content, end)) => Ok((seq![s[i] as char] + content, end)),
            Err(err) => Err(err),
        }
    } else {
        Err((LexReason::UnexpectedChar, i))
    }
}

/// Is `name` one of the recognized RV32I mnemonics?
pub open spec fn is_mnemonic(name: Seq<char>) -> bool {
    ||| name == "add"@
    ||| name == "sub"@
    ||| name == "and"@
    ||| name == "or"@
    ||| name == "xor"@
    ||| name == "sll"@
    ||| name == "srl"@
    ||| name == "sra"@
    ||| name == "slt"@
    ||| name == "sltu"@
    ||| name == "addi"@
    ||| name == "andi"@
    ||| name == "ori"@
    ||| name == "xori"@
    ||| name == "slli"@
    ||| name == "srli"@
    ||| name == "srai"@
    ||| name == "slti"@
    ||| name == "sltiu"@
    ||| name == "lb"@
    ||| name == "lh"@
    ||| name == "lw"@
    ||| name == "lbu"@
    ||| name == "lhu"@
    ||| name == "sb"@
    ||| name == "sh"@
    ||| name == "sw"@
    ||| name == "beq"@
    ||| name == "bne"@
    ||| name == "blt"@
    ||| name == "bge"@
    ||| name == "bltu"@
    ||| name == "bgeu"@
    ||| name == "lui"@
    ||| name == "auipc"@
    ||| name == "jal"@
    ||| name == "jalr"@
    ||| name == "ecall"@
    ||| name == "ebreak"@
    ||| name == "fence"@
}

/// The register index named by an ABI alias, if `name` is one.
pub open spec fn spec_abi_register(name: Seq<char>) -> Option<u8> {
    if name == "zero"@ {
        Some(0u8)
    } else if name == "ra"@ {
        Some(1u8)
    } else if name == "sp"@ {
        Some(2u8)
    } else if name == "gp"@ {
        Some(3u8)
    } else if name == "tp"@ {
        Some(4u8)
    } else if name == "t0"@ {
        Some(5u8)
    } else if name == "t1"@ {
        Some(6u8)
    } else if name == "t2"@ {
        Some(7u8)
    } else if name == "s0"@ || name == "fp"@ {
        Some(8u8)
    } else if name == "s1"@ {
        Some(9u8)
    } else if name == "a0"@ {
        Some(10u8)
    } else if name == "a1"@ {
        Some(11u8)
    } else if name == "a2"@ {
        Some(12u8)
    } else if name == "a3"@ {
        Some(13u8)
    } else if name == "a4"@ {
        Some(14u8)
    } else if name == "a5"@ {
        Some(15u8)
    } else if name == "a6"@ {
        Some(16u8)
    } else if name == "a7"@ {
        Some(17u8)
    } else if name == "s2"@ {
        Some(18u8)
    } else if name == "s3"@ {
        Some(19u8)
    } else if name == "s4"@ {
        Some(20u8)
    } else if name == "s5"@ {
        Some(21u8)
    } else if name == "s6"@ {
        Some(22u8)
    } else if name == "s7"@ {
        Some(23u8)
    } else if name == "s8"@ {
        Some(24u8)
    } else if name == "s9"@ {
        Some(25u8)
    } else if name == "s10"@ {
        Some(26u8)
    } else if name == "s11"@ {
        Some(27u8)
    } else if name == "t3"@ {
        Some(28u8)
    } else if name == "t4"@ {
        Some(29u8)
    } else if name == "t5"@ {
        Some(30u8)
    } else if name == "t6"@ {
        Some(31u8)
    } else {
        None
    }
}

/// An ASCII digit character.
pub open spec fn is_digit_c(c: char) -> bool {
    48 <= c as u32 <= 57
}

/// The decimal value of the digit characters `cs`.
pub open spec fn char_digits_val(cs: Seq<char>) -> int
    decreases cs.len(),
{
    if cs.len() == 0 {
        0
    } else {
        char_digits_val(cs.drop_last()) * 10 + (cs.last() as u32 - 48)
    }
}

/// Is `name` of the form `x` followed by decimal digits naming one of the
/// 32 registers?
pub open spec fn is_numeric_register(name: Seq<char>) -> bool {
    name.len() >= 2 && name[0] == 'x' && (forall|k: int|
        1 <= k < name.len() ==> is_digit_c(#[trigger] name[k])) && char_digits_val(
        name.subrange(1, name.len() as int),
    ) <= 31
}

/// Classify an identifier: a numeric register form first, then an ABI
/// register alias, then a mnemonic, and otherwise a label.
pub open spec fn spec_classify(name: Seq<char>) -> TokenModel {
    if !vstd::utf8::is_ascii_chars(name) {
        TokenModel::Label(name)
    } else if is_numeric_register(name) {
        TokenModel::Register(char_digits_val(name.subrange(1, name.len() as int)) as u8)
    } else if spec_abi_register(name) is Some {
        TokenModel::Register(spec_abi_register(name)->0)
    } else if is_mnemonic(name) {
        TokenModel::Instruction(name)
    } else {
        TokenModel::Label(name)
    }
}

/// Read one immediate starting at `i` (a digit or a minus sign): the
/// signed 32-bit value and the index just past it, or a lexical error.
pub open spec fn spec_read_number(s: Seq<u8>, i: int, line: int, line_start: int) -> Result<
    (i32, int),
    LexErrorModel,
>
    recommends
        0 <= i < s.len(),
        is_digit_b(s[i]) || s[i] == 45,
{
    let col = i - line_start + 1;
    let neg = s[i] == 45;
    let d0 = if neg {
        i + 1
    } else {
        i
    };
    if neg && (d0 >= s.len() || !is_digit_b(s[d0])) {
        Err(LexErrorModel { line, column: col, reason: LexReason::UnexpectedChar })
    } else {
        let pfx = d0 + 1 < s.len() && s[d0] == 48 && (s[d0 + 1] == 120 || s[d0 + 1] == 88 || s[d0
            + 1] == 98 || s[d0 + 1] == 66 || s[d0 + 1] == 111 || s[d0 + 1] == 79);
        let radix: int = if !pfx {
            10
        } else if s[d0 + 1] == 120 || s[d0 + 1] == 88 {
            16
        } else if s[d0 + 1] == 98 || s[d0 + 1] == 66 {
            2
        } else {
            8
        };
        let ds = if pfx {
            d0 + 2
        } else {
            d0
        };
        let j = digits_end(s, ds, radix);
        let v = digits_val(s, ds, j, radix);
        if neg {
            if v > 0x8000_0000 {
                Err(LexErrorModel { line, column: col, reason: LexReason::NumericOverflow })
            } else {
                Ok(((0 - v) as i32, j))
            }
        } else {
            if v > 0x7FFF_FFFF {
                Err(LexErrorModel { line, column: col, reason: LexReason::NumericOverflow })
            } else {
                Ok((v as i32, j))
            }
        }
    }
}

/// Prepend a token to the result of lexing the rest of the input.
pub open spec fn lex_cons(t: SpannedTokenModel, rest: Result<Seq<SpannedTokenModel>, LexErrorModel>)
    -> Result<Seq<SpannedTokenModel>, LexErrorModel> {
    match rest {
        Ok(ts) => Ok(seq![t] + ts),
        Err(e) => Err(e),
    }
}

/// The token stream of `s` from byte index `i`, on line `line` whose first
/// byte is at index `line_start`. Columns are 1-based byte columns of a
/// token's first byte. The stream always ends with an end-of-input token.
pub open spec fn spec_lex(s: Seq<u8>, i: int, line: int, line_start: int) -> Result<
    Seq<SpannedTokenModel>,
    LexErrorModel,
>
    recommends
        0 <= i <= s.len(),
        line_start <= i,
    decreases s.len() - i,
    via spec_lex_dec
{
    if i < 0 || i >= s.len() {
        Ok(
            seq![
                SpannedTokenModel { token: TokenModel::Eof, line, column: i - line_start + 1 }
            ],
        )
    } else {
        let b = s[i];
        let col = i - line_start + 1;
        if is_ws(b) {
            spec_lex(s, i + 1, line, line_start)
        } else if b == 10 {
            lex_cons(
                SpannedTokenModel { token: TokenModel::Newline, line, column: col },
                spec_lex(s, i + 1, line + 1, i + 1),
            )
        } else if b == 35 {
            spec_lex(s, comment_end(s, i + 1), line, line_start)
        } else if b == 58 {
            lex_cons(
                SpannedTokenModel { token: TokenModel::Colon, line, column: col },
                spec_lex(s, i + 1, line, line_start),
            )
        } else if b == 44 {
            lex_cons(
                SpannedTokenModel { token: TokenModel::Comma, line, column: col },
                spec_lex(s, i + 1, line, line_start),
            )
        } else if b == 40 {
            lex_cons(
                SpannedTokenModel { token: TokenModel::LParenthesis, line, column: col },
                spec_lex(s, i + 1, line, line_start),
            )
        } else if b == 41 {
            lex_cons(
                SpannedTokenModel { token: TokenModel::RParenthesis, line, column: col },
                spec_lex(s, i + 1, line, line_start),
            )
        } else if b == 46 {
            let j = ident_end(s, i + 1);
            lex_cons(
                SpannedTokenModel {
                    token: TokenModel::Directive(chars_of(s.subrange(i, j))),
                    line,
                    column: col,
                },
                spec_lex(s, j, line, line_start),
            )
        } else if b == 34 {
            match str_scan(s, i + 1) {
                Err((reason, pos)) => Err(
                    LexErrorModel { line, column: pos - line_start + 1, reason },
                ),
                Ok((content, j)) => lex_cons(
                    SpannedTokenModel {
                        token: TokenModel::StringLiteral(content),
                        line,
                        column: col,
                    },
                    spec_lex(s, j, line, line_start),
                ),
            }
        } else if is_digit_b(b) || b == 45 {
            match spec_read_number(s, i, line, line_start) {
                Err(e) => Err(e),
                Ok((v, j)) => lex_cons(
                    SpannedTokenModel { token: TokenModel::Immediate(v), line, column: col },
                    spec_lex(s, j, line, line_start),
                ),
            }
        } else if is_ident_start(b) {
            let j = ident_end(s, i + 1);
            lex_cons(
                SpannedTokenModel {
                    token: spec_classify(chars_of(s.subrange(i, j))),
                    line,
                    column: col,
                },
                spec_lex(s, j, line, line_start),
            )
        } else {
            Err(LexErrorModel { line, column: col, reason: LexReason::UnexpectedChar })
        }
    }
}

/// The index past a digit run lies between its start and the end of input.
pub proof fn lemma_digits_end_bounds(s: Seq<u8>, i: int, radix: int)
    requires
        0 <= i <= s.len(),
    ensures
        i <= digits_end(s, i, radix) <= s.len(),
    decreases s.len() - i,
{
    if i < s.len() && is_digit_of(s[i], radix) {
        lemma_digits_end_bounds(s, i + 1, radix);
    }
}

/// The index past an identifier run lies between its start and the end of
/// input.
pub proof fn lemma_ident_end_bounds(s: Seq<u8>, i: int)
    requires
        0 <= i <= s.len(),
    ensures
        i <= ident_end(s, i) <= s.len(),
    decreases s.len() - i,
{
    if i < s.len() && is_ident_cont(s[i]) {
        lemma_ident_end_bounds(s, i + 1);
    }
}

/// The index of a comment's terminating newline lies between the comment
/// start and the end of input.
pub proof fn lemma_comment_end_bounds(s: Seq<u8>, i: int)
    requires
        0 <= i <= s.len(),
    ensures
        i <= comment_end(s, i) <= s.len(),
    decreases s.len() - i,
{
    if i < s.len() && s[i] != 10 {
        lemma_comment_end_bounds(s, i + 1);
    }
}

/// A successful string scan ends past its start and within the input; a
/// failed one names a position within the input bounds.
pub proof fn lemma_str_scan_bounds(s: Seq<u8>, i: int)
    requires
        0 <= i <= s.len(),
    ensures
        str_scan(s, i) matches Ok((c, e)) ==> i < e <= s.len(),
        str_scan(s, i) matches Err((r, p)) ==> 0 <= p <= s.len(),
    decreases s.len() - i,
{
    if i < s.len() && s[i] != 34 {
        if s[i] == 92 {
            if i + 1 < s.len() {
                lemma_str_scan_bounds(s, i + 2);
            }
        } else if s[i] < 0x80 {
            lemma_str_scan_bounds(s, i + 1);
        }
    }
}

/// A successfully read number ends past its start and within the input.
pub proof fn lemma_read_number_bounds(s: Seq<u8>, i: int, line: int, line_start: int)
    requires
        0 <= i < s.len(),
        is_digit_b(s[i]) || s[i] == 45,
    ensures
        spec_read_number(s, i, line, line_start) matches Ok((v, j)) ==> i < j <= s.len(),
{
    let neg = s[i] == 45;
    let d0 = if neg {
        i + 1
    } else {
        i
    };
    if !(neg && (d0 >= s.len() || !is_digit_b(s[d0]))) {
        let pfx = d0 + 1 < s.len() && s[d0] == 48 && (s[d0 + 1] == 120 || s[d0 + 1] == 88 || s[d0
            + 1] == 98 || s[d0 + 1] == 66 || s[d0 + 1] == 111 || s[d0 + 1] == 79);
        let radix: int = if !pfx {
            10
        } else if s[d0 + 1] == 120 || s[d0 + 1] == 88 {
            16
        } else if s[d0 + 1] == 98 || s[d0 + 1] == 66 {
            2
        } else {
            8
        };
        let ds = if pfx {
            d0 + 2
        } else {
            d0
        };
        if pfx {
            lemma_digits_end_bounds(s, ds, radix);
        } else {
            assert(is_digit_of(s[ds], radix));
            lemma_digits_end_bounds(s, ds + 1, radix);
        }
    }
}

#[via_fn]
proof fn spec_lex_dec(s: Seq<u8>, i: int, line: int, line_start: int) {
    if 0 <= i < s.len() {
        lemma_comment_end_bounds(s, i + 1);
        lemma_ident_end_bounds(s, i + 1);
        lemma_str_scan_bounds(s, i + 1);
        if is_digit_b(s[i]) || s[i] == 45 {
            lemma_read_number_bounds(s, i, line, line_start);
        }
    }
}

/// The token stream of the UTF-8 bytes `s`, from the beginning.
pub open spec fn spec_tokenize(s: Seq<u8>) -> Result<Seq<SpannedTokenModel>, LexErrorModel> {
    spec_lex(s, 0, 1, 0)
}

/// The models of a sequence of spanned tokens.
pub open spec fn toks_views(ts: Seq<SpannedToken>) -> Seq<SpannedTokenModel> {
    ts.map_values(|t: SpannedToken| t@)
}

/// Every byte of an identifier run may continue an identifier.
pub proof fn lemma_ident_end_chars(s: Seq<u8>, i: int)
    requires
        0 <= i <= s.len(),
    ensures
        forall|m: int| i <= m < ident_end(s, i) ==> is_ident_cont(#[trigger] s[m]),
    decreases s.len() - i,
{
    lemma_ident_end_bounds(s, i);
    if i < s.len() && is_ident_cont(s[i]) {
        lemma_ident_end_chars(s, i + 1);
    }
}

/// The value of a digit run is never negative when the run holds digits of
/// its radix.
pub proof fn lemma_digits_val_nonneg(s: Seq<u8>, i: int, j: int, radix: int)
    requires
        radix >= 1,
        forall|m: int| i <= m < j ==> is_digit_of(#[trigger] s[m], radix),
    ensures
        digits_val(s, i, j, radix) >= 0,
    decreases j - i,
{
    if j > i {
        lemma_digits_val_nonneg(s, i, j - 1, radix);
        assert(digit_val(s[j - 1]) >= 0);
        assert(digits_val(s, i, j - 1, radix) * radix >= 0) by (nonlinear_arith)
            requires
                digits_val(s, i, j - 1, radix) >= 0,
                radix >= 1,
        ;
    }
}

/// Appending a digit to a nonnegative digit run never shrinks its value.
pub proof fn lemma_digits_val_step_monotone(s: Seq<u8>, i: int, j: int, radix: int)
    requires
        radix >= 1,
        forall|m: int| i <= m < j ==> is_digit_of(#[trigger] s[m], radix),
        i <= j,
        is_digit_of(s[j], radix),
    ensures
        digits_val(s, i, j + 1, radix) >= digits_val(s, i, j, radix),
        digits_val(s, i, j + 1, radix) == digits_val(s, i, j, radix) * radix + digit_val(s[j]),
{
    lemma_digits_val_nonneg(s, i, j, radix);
    assert(digits_val(s, i, j, radix) * radix >= digits_val(s, i, j, radix)) by (nonlinear_arith)
        requires
            digits_val(s, i, j, radix) >= 0,
            radix >= 1,
    ;
    assert(digit_val(s[j]) >= 0);
}

/// Relies on `String::from_utf8`: a vector of ASCII bytes is valid UTF-8
/// and decodes to exactly those bytes read as characters.
#[verifier::external_body]
fn ascii_to_string(bytes: &[u8], from: usize, to: usize) -> (r: String)
    requires
        from <= to <= bytes@.len(),
        forall|k: int| from <= k < to ==> bytes@[k] < 0x80,
    ensures
        r@ == chars_of(bytes@.subrange(from as int, to as int)),
{
    String::from_utf8(bytes[from..to].to_vec()).unwrap()
}

/// Are two string slices equal, as their character sequences?
pub(crate) fn str_eq(a: &str, b: &str) -> (r: bool)
    ensures
        r == (a@ == b@),
{
    proof {
        vstd::utf8::encode_utf8_decode_utf8(a@);
        vstd::utf8::encode_utf8_decode_utf8(b@);
    }
    let ab = a.as_bytes();
    let bb = b.as_bytes();
    if ab.len() != bb.len() {
        return false;
    }
    let mut k: usize = 0;
    while k < ab.len()
        invariant
            k <= ab@.len(),
            ab@.len() == bb@.len(),
            ab@ == a.spec_bytes(),
            bb@ == b.spec_bytes(),
            forall|m: int| 0 <= m < k ==> ab@[m] == bb@[m],
        decreases ab@.len() - k,
    {
        if ab[k] != bb[k] {
            return false;
        }
        k = k + 1;
    }
    proof {
        assert(a.spec_bytes() =~= b.spec_bytes());
    }
    true
}

/// May this byte continue an identifier or directive name?
fn ident_cont(b: u8) -> (r: bool)
    ensures
        r == is_ident_cont(b),
{
    (65 <= b && b <= 90) || (97 <= b && b <= 122) || b == 95 || (48 <= b && b <= 57)
}

/// The index just past the identifier run starting at `start`.
fn scan_ident_end(s: &[u8], start: usize) -> (r: usize)
    requires
        start <= s@.len(),
    ensures
        r == ident_end(s@, start as int),
        start <= r <= s@.len(),
{
    let mut j = start;
    while j < s.len() && ident_cont(s[j])
        invariant
            start <= j <= s@.len(),
            ident_end(s@, start as int) == ident_end(s@, j as int),
        decreases s@.len() - j,
    {
        j = j + 1;
    }
    j
}

/// The index of the newline that ends a comment, or the end of input.
fn scan_comment_end(s: &[u8], start: usize) -> (r: usize)
    requires
        start <= s@.len(),
    ensures
        r == comment_end(s@, start as int),
        start <= r <= s@.len(),
{
    let mut j = start;
    while j < s.len() && s[j] != 10
        invariant
            start <= j <= s@.len(),
            comment_end(s@, start as int) == comment_end(s@, j as int),
        decreases s@.len() - j,
    {
        j = j + 1;
    }
    j
}

/// Is `b` a digit of the given radix?
fn digit_of(b: u8, radix: u32) -> (r: bool)
    requires
        radix == 2 || radix == 8 || radix == 10 || radix == 16,
    ensures
        r == is_digit_of(b, radix as int),
{
    if radix == 16 {
        (48 <= b && b <= 57) || (97 <= b && b <= 102) || (65 <= b && b <= 70)
    } else {
        48 <= b && (b as u32) < 48 + radix
    }
}

/// The numeric value of one digit byte.
fn digit_value(b: u8) -> (r: u8)
    requires
        is_digit_of(b, 16),
    ensures
        r as int == digit_val(b),
        r < 16,
{
    if 48 <= b && b <= 57 {
        b - 48
    } else if 97 <= b && b <= 102 {
        b - 87
    } else {
        b - 55
    }
}

/// Read one immediate starting at byte `i` of `s`: its value and the index
/// just past its digits, or the lexical error that rejects it.
fn read_number(s: &[u8], i: usize, line: usize, line_start: usize) -> (r: Result<
    (i32, usize),
    LexError,
>)
    requires
        i < s@.len(),
        line_start <= i,
        is_digit_b(s@[i as int]) || s@[i as int] == 45,
    ensures
        spec_read_number(s@, i as int, line as int, line_start as int) matches Ok(p) ==> (
        r matches Ok(q) && q.0 == p.0 && q.1 == p.1),
        spec_read_number(s@, i as int, line as int, line_start as int) matches Err(e) ==> (
        r matches Err(le) && le@ == e),
{
    let ghost gs = s@;
    let n = s.len();
    let col: usize = i - line_start + 1;
    let neg = s[i] == 45;
    let d0: usize = if neg {
        i + 1
    } else {
        i
    };
    if neg && (d0 >= s.len() || !(48 <= s[d0] && s[d0] <= 57)) {
        return Err(LexError { line, column: col, reason: LexReason::UnexpectedChar });
    }
    let pfx = d0 + 1 < s.len() && s[d0] == 48 && (s[d0 + 1] == 120 || s[d0 + 1] == 88 || s[d0 + 1]
        == 98 || s[d0 + 1] == 66 || s[d0 + 1] == 111 || s[d0 + 1] == 79);
    let radix: u32 = if !pfx {
        10
    } else if s[d0 + 1] == 120 || s[d0 + 1] == 88 {
        16
    } else if s[d0 + 1] == 98 || s[d0 + 1] == 66 {
        2
    } else {
        8
    };
    let ds: usize = if pfx {
        d0 + 2
    } else {
        d0
    };
    let mut k: usize = ds;
    let mut acc: u64 = 0;
    let mut over = false;
    while k < s.len() && digit_of(s[k], radix)
        invariant
            s@ == gs,
            radix == 2 || radix == 8 || radix == 10 || radix == 16,
            ds <= k <= s@.len(),
            digits_end(gs, ds as int, radix as int) == digits_end(gs, k as int, radix as int),
            forall|m: int| ds <= m < k ==> is_digit_of(#[trigger] gs[m], radix as int),
            over ==> digits_val(gs, ds as int, k as int, radix as int) > 0x8000_0000,
            !over ==> acc == digits_val(gs, ds as int, k as int, radix as int) && acc
                <= 0x8000_0000,
        decreases s@.len() - k,
    {
        let d = digit_value(s[k]);
        proof {
            lemma_digits_val_step_monotone(gs, ds as int, k as int, radix as int);
        }
        if !over {
            let newacc: u64 = acc * (radix as u64) + (d as u64);
            if newacc > 0x8000_0000 {
                over = true;
            } else {
                acc = newacc;
            }
        }
        k = k + 1;
    }
    let j = k;
    if neg {
        if over {
            Err(LexError { line, column: col, reason: LexReason::NumericOverflow })
        } else {
            let value: i32 = (-(acc as i64)) as i32;
            Ok((value, j))
        }
    } else {
        if over || acc > 0x7FFF_FFFF {
            Err(LexError { line, column: col, reason: LexReason::NumericOverflow })
        } else {
            Ok((acc as i32, j))
        }
    }
}

/// The numeric register index of `x`-prefixed decimal forms, `x0` through
/// `x31`.
fn numeric_register(ident: &str) -> (r: Option<u8>)
    ensures
        r == (if is_numeric_register(ident@) {
            Some(char_digits_val(ident@.subrange(1, ident@.len() as int)) as u8)
        } else {
            None::<u8>
        }),
{
    let n = ident.unicode_len();
    if n < 2 {
        return None;
    }
    if ident.get_char(0) != 'x' {
        return None;
    }
    let mut k: usize = 1;
    let mut acc: u32 = 0;
    while k < n
        invariant
            ident@.len() == n,
            n >= 2,
            1 <= k <= n,
            forall|m: int| 1 <= m < k ==> is_digit_c(#[trigger] ident@[m]),
            acc <= 32,
            (acc <= 31 && acc == char_digits_val(ident@.subrange(1, k as int))) || (acc == 32
                && char_digits_val(ident@.subrange(1, k as int)) > 31),
        decreases n - k,
    {
        let c = ident.get_char(k);
        let u = c as u32;
        if !(48 <= u && u <= 57) {
            return None;
        }
        proof {
            assert(ident@.subrange(1, (k + 1) as int).drop_last() =~= ident@.subrange(
                1,
                k as int,
            ));
            assert(char_digits_val(ident@.subrange(1, (k + 1) as int)) == char_digits_val(
                ident@.subrange(1, k as int),
            ) * 10 + (ident@[k as int] as u32 - 48));
            if acc == 32 {
                assert(char_digits_val(ident@.subrange(1, k as int)) * 10 >= char_digits_val(
                    ident@.subrange(1, k as int),
                )) by (nonlinear_arith)
                    requires
                        char_digits_val(ident@.subrange(1, k as int)) > 31,
                ;
            }
        }
        let newacc = acc * 10 + (u - 48);
        if newacc > 31 {
            acc = 32;
        } else {
            acc = newacc;
        }
        k = k + 1;
    }
    proof {
        assert(ident@.subrange(1, n as int) =~= ident@.subrange(1, ident@.len() as int));
    }
    if acc <= 31 {
        Some(acc as u8)
    } else {
        None
    }
}

/// The register index named by an ABI register alias, if any.
pub fn abi_to_register(ident: &str) -> (r: Option<u8>)
    ensures
        r == spec_abi_register(ident@),
{
    if str_eq(ident, "zero") {
        Some(0)
    } else if str_eq(ident, "ra") {
        Some(1)
    } else if str_eq(ident, "sp") {
        Some(2)
    } else if str_eq(ident, "gp") {
        Some(3)
    } else if str_eq(ident, "tp") {
        Some(4)
    } else if str_eq(ident, "t0") {
        Some(5)
    } else if str_eq(ident, "t1") {
        Some(6)
    } else if str_eq(ident, "t2") {
        Some(7)
    } else if str_eq(ident, "s0") || str_eq(ident, "fp") {
        Some(8)
    } else if str_eq(ident, "s1") {
        Some(9)
    } else if str_eq(ident, "a0") {
        Some(10)
    } else if str_eq(ident, "a1") {
        Some(11)
    } else if str_eq(ident, "a2") {
        Some(12)
    } else if str_eq(ident, "a3") {
        Some(13)
    } else if str_eq(ident, "a4") {
        Some(14)
    } else if str_eq(ident, "a5") {
        Some(15)
    } else if str_eq(ident, "a6") {
        Some(16)
    } else if str_eq(ident, "a7") {
        Some(17)
    } else if str_eq(ident, "s2") {
        Some(18)
    } else if str_eq(ident, "s3") {
        Some(19)
    } else if str_eq(ident, "s4") {
        Some(20)
    } else if str_eq(ident, "s5") {
        Some(21)
    } else if str_eq(ident, "s6") {
        Some(22)
    } else if str_eq(ident, "s7") {
        Some(23)
    } else if str_eq(ident, "s8") {
        Some(24)
    } else if str_eq(ident, "s9") {
        Some(25)
    } else if str_eq(ident, "s10") {
        Some(26)
    } else if str_eq(ident, "s11") {
        Some(27)
    } else if str_eq(ident, "t3") {
        Some(28)
    } else if str_eq(ident, "t4") {
        Some(29)
    } else if str_eq(ident, "t5") {
        Some(30)
    } else if str_eq(ident, "t6") {
        Some(31)
    } else {
        None
    }
}

/// Is `ident` a recognized RV32I mnemonic?
fn is_mnemonic_exec(ident: &str) -> (r: bool)
    ensures
        r == is_mnemonic(ident@),
{
    str_eq(ident, "add") || str_eq(ident, "sub") || str_eq(ident, "and") || str_eq(ident, "or")
        || str_eq(ident, "xor") || str_eq(ident, "sll") || str_eq(ident, "srl") || str_eq(
        ident,
        "sra",
    ) || str_eq(ident, "slt") || str_eq(ident, "sltu") || str_eq(ident, "addi") || str_eq(
        ident,
        "andi",
    ) || str_eq(ident, "ori") || str_eq(ident, "xori") || str_eq(ident, "slli") || str_eq(
        ident,
        "srli",
    ) || str_eq(ident, "srai") || str_eq(ident, "slti") || str_eq(ident, "sltiu") || str_eq(
        ident,
        "lb",
    ) || str_eq(ident, "lh") || str_eq(ident, "lw") || str_eq(ident, "lbu") || str_eq(ident, "lhu")
        || str_eq(ident, "sb") || str_eq(ident, "sh") || str_eq(ident, "sw") || str_eq(
        ident,
        "beq",
    ) || str_eq(ident, "bne") || str_eq(ident, "blt") || str_eq(ident, "bge") || str_eq(
        ident,
        "bltu",
    ) || str_eq(ident, "bgeu") || str_eq(ident, "lui") || str_eq(ident, "auipc") || str_eq(
        ident,
        "jal",
    ) || str_eq(ident, "jalr") || str_eq(ident, "ecall") || str_eq(ident, "ebreak") || str_eq(
        ident,
        "fence",
    )
}

/// Read the body of a string literal whose opening quote stands at byte
/// `i`: the decoded content and the index just past the closing quote, or
/// the lexical error that rejects it.
fn read_string_literal(s: &[u8], i: usize, line: usize, line_start: usize) -> (r: Result<
    (String, usize),
    LexError,
>)
    requires
        i < s@.len(),
        s@.len() < usize::MAX,
        line_start <= i,
    ensures
        str_scan(s@, i + 1) matches Ok(p) ==> (r matches Ok(q) && q.0@ == p.0 && q.1 == p.1),
        str_scan(s@, i + 1) matches Err(e) ==> (r matches Err(le) && le@ == (LexErrorModel {
            line: line as int,
            column: e.1 - line_start + 1,
            reason: e.0,
        })),
{
    let ghost gs = s@;
    let n = s.len();
    let mut p: usize = i + 1;
    let mut content = String::new();
    let mut run_start: usize = p;
    loop
        invariant
            s@ == gs,
            n == gs.len(),
            gs.len() < usize::MAX,
            i < gs.len(),
            line_start <= i,
            i + 1 <= run_start <= p <= n,
            forall|m: int|
                run_start <= m < p ==> (#[trigger] gs[m]) < 0x80 && gs[m] != 34 && gs[m] != 92,
            (match str_scan(gs, p as int) {
                Ok((c2, e)) => str_scan(gs, i + 1) == Ok::<(Seq<char>, int), (LexReason, int)>(
                    (content@ + chars_of(gs.subrange(run_start as int, p as int)) + c2, e),
                ),
                Err(err) => str_scan(gs, i + 1) == Err::<(Seq<char>, int), (LexReason, int)>(err),
            }),
        decreases gs.len() - p,
    {
        if p >= n {
            return Err(
                LexError {
                    line,
                    column: p - line_start + 1,
                    reason: LexReason::UnterminatedString,
                },
            );
        }
        let b = s[p];
        let ghost rc = chars_of(gs.subrange(run_start as int, p as int));
        if b == 34 {
            let ghost c0 = content@;
            let run = ascii_to_string(s, run_start, p);
            content.append(run.as_str());
            proof {
                assert(c0 + rc + Seq::<char>::empty() =~= content@);
            }
            return Ok((content, p + 1));
        } else if b == 92 {
            if p + 1 >= n {
                return Err(
                    LexError {
                        line,
                        column: (p + 1) - line_start + 1,
                        reason: LexReason::UnterminatedString,
                    },
                );
            }
            let e = s[p + 1];
            if e == 110 || e == 116 || e == 92 || e == 34 {
                let ghost c0 = content@;
                let run = ascii_to_string(s, run_start, p);
                content.append(run.as_str());
                let ghost ec: char = if e == 110 {
                    '\n'
                } else if e == 116 {
                    '\t'
                } else if e == 92 {
                    '\\'
                } else {
                    '"'
                };
                if e == 110 {
                    content.append("\n");
                    proof {
                        reveal_strlit("\n");
                        assert(content@ =~= c0 + rc + seq![ec]);
                    }
                } else if e == 116 {
                    content.append("\t");
                    proof {
                        reveal_strlit("\t");
                        assert(content@ =~= c0 + rc + seq![ec]);
                    }
                } else if e == 92 {
                    content.append("\\");
                    proof {
                        reveal_strlit("\\");
                        assert(content@ =~= c0 + rc + seq![ec]);
                    }
                } else {
                    content.append("\"");
                    proof {
                        reveal_strlit("\"");
                        assert(content@ =~= c0 + rc + seq![ec]);
                    }
                }
                proof {
                    assert(gs.subrange((p + 2) as int, (p + 2) as int) =~= Seq::<u8>::empty());
                    assert(chars_of(Seq::<u8>::empty()) =~= Seq::<char>::empty());
                    if str_scan(gs, (p + 2) as int) is Ok {
                        let c2p = str_scan(gs, (p + 2) as int)->Ok_0.0;
                        assert(content@ + chars_of(gs.subrange((p + 2) as int, (p + 2) as int))
                            + c2p =~= c0 + rc + (seq![ec] + c2p));
                    }
                }
                p = p + 2;
                run_start = p;
            } else {
                return Err(
                    LexError {
                        line,
                        column: (p + 1) - line_start + 1,
                        reason: LexReason::UnknownEscape,
                    },
                );
            }
        } else if b < 0x80 {
            proof {
                assert(gs.subrange(run_start as int, (p + 1) as int) =~= gs.subrange(
                    run_start as int,
                    p as int,
                ).push(gs[p as int]));
                assert(chars_of(gs.subrange(run_start as int, (p + 1) as int)) =~= rc.push(
                    gs[p as int] as char,
                ));
                if str_scan(gs, (p + 1) as int) is Ok {
                    let c2p = str_scan(gs, (p + 1) as int)->Ok_0.0;
                    assert(content@ + chars_of(gs.subrange(run_start as int, (p + 1) as int)) + c2p
                        =~= content@ + rc + (seq![gs[p as int] as char] + c2p));
                }
            }
            p = p + 1;
        } else {
            return Err(
                LexError { line, column: p - line_start + 1, reason: LexReason::UnexpectedChar },
            );
        }
    }
}

/// Lex the whole source into a positioned token stream ending with an
/// end-of-input token, or report the first lexical error.
pub fn tokenize(source: &str) -> (r: Result<Vec<SpannedToken>, LexError>)
    requires
        source.spec_bytes().len() < usize::MAX,
    ensures
        spec_tokenize(source.spec_bytes()) matches Ok(ts) ==> (r matches Ok(v) && toks_views(v@)
            == ts),
        spec_tokenize(source.spec_bytes()) matches Err(e) ==> (r matches Err(le) && le@ == e),
{
    let s = source.as_bytes();
    let ghost gs = s@;
    let n = s.len();
    let mut tokens: Vec<SpannedToken> = Vec::new();
    let mut i: usize = 0;
    let mut line: usize = 1;
    let mut line_start: usize = 0;
    loop
        invariant
            s@ == gs,
            gs == source.spec_bytes(),
            n == gs.len(),
            gs.len() < usize::MAX,
            i <= n,
            line_start <= i,
            1 <= line <= i + 1,
            (match spec_lex(gs, i as int, line as int, line_start as int) {
                Ok(rest) => spec_tokenize(gs) == Ok::<Seq<SpannedTokenModel>, LexErrorModel>(
                    toks_views(tokens@) + rest,
                ),
                Err(e) => spec_tokenize(gs) == Err::<Seq<SpannedTokenModel>, LexErrorModel>(e),
            }),
        decreases n - i,
    {
        if i >= n {
            let t = SpannedToken { token: Token::Eof, line, column: i - line_start + 1 };
            proof {
                assert(toks_views(tokens@.push(t)) =~= toks_views(tokens@) + seq![t@]);
            }
            tokens.push(t);
            return Ok(tokens);
        }
        let b = s[i];
        let col: usize = i - line_start + 1;
        if b == 32 || b == 9 {
            i = i + 1;
        } else if b == 10 {
            let t = SpannedToken { token: Token::Newline, line, column: col };
            proof {
                lex_push_shift(tokens@, t, gs, (i + 1) as int, line + 1 as int, (i + 1) as int);
            }
            tokens.push(t);
            i = i + 1;
            line = line + 1;
            line_start = i;
        } else if b == 35 {
            i = scan_comment_end(s, i + 1);
        } else if b == 58 || b == 44 || b == 40 || b == 41 {
            let tk = if b == 58 {
                Token::Colon
            } else if b == 44 {
                Token::Comma
            } else if b == 40 {
                Token::LParenthesis
            } else {
                Token::RParenthesis
            };
            let t = SpannedToken { token: tk, line, column: col };
            proof {
                lex_push_shift(tokens@, t, gs, (i + 1) as int, line as int, line_start as int);
            }
            tokens.push(t);
            i = i + 1;
        } else if b == 46 {
            let j = scan_ident_end(s, i + 1);
            proof {
                lemma_ident_end_chars(gs, (i + 1) as int);
                assert(forall|k: int| i <= k < j ==> gs[k] < 0x80) by {
                    assert(gs[i as int] == 46);
                }
            }
            let text = ascii_to_string(s, i, j);
            let t = SpannedToken { token: Token::Directive(text), line, column: col };
            proof {
                lex_push_shift(tokens@, t, gs, j as int, line as int, line_start as int);
            }
            tokens.push(t);
            i = j;
        } else if b == 34 {
            match read_string_literal(s, i, line, line_start) {
                Ok((content, j)) => {
                    let t = SpannedToken {
                        token: Token::StringLiteral(content),
                        line,
                        column: col,
                    };
                    proof {
                        lemma_str_scan_bounds(gs, i + 1);
                        lex_push_shift(tokens@, t, gs, j as int, line as int, line_start as int);
                    }
                    tokens.push(t);
                    i = j;
                },
                Err(e) => {
                    return Err(e);
                },
            }
        } else if (48 <= b && b <= 57) || b == 45 {
            match read_number(s, i, line, line_start) {
                Ok((v, j)) => {
                    let t = SpannedToken { token: Token::Immediate(v), line, column: col };
                    proof {
                        lemma_read_number_bounds(gs, i as int, line as int, line_start as int);
                        lex_push_shift(tokens@, t, gs, j as int, line as int, line_start as int);
                    }
                    tokens.push(t);
                    i = j;
                },
                Err(e) => {
                    return Err(e);
                },
            }
        } else if (65 <= b && b <= 90) || (97 <= b && b <= 122) || b == 95 {
            let j = scan_ident_end(s, i + 1);
            proof {
                lemma_ident_end_chars(gs, (i + 1) as int);
                assert(forall|k: int| i <= k < j ==> gs[k] < 0x80) by {
                    assert(is_ident_start(gs[i as int]));
                }
            }
            let text = ascii_to_string(s, i, j);
            let tk = classify_identifier(text.as_str());
            let t = SpannedToken { token: tk, line, column: col };
            proof {
                lex_push_shift(tokens@, t, gs, j as int, line as int, line_start as int);
            }
            tokens.push(t);
            i = j;
        } else {
            return Err(LexError { line, column: col, reason: LexReason::UnexpectedChar });
        }
    }
}

/// Pushing the token that the lexer step produced keeps the accumulated
/// stream aligned with the remaining one.
proof fn lex_push_shift(
    ts: Seq<SpannedToken>,
    t: SpannedToken,
    gs: Seq<u8>,
    i2: int,
    line2: int,
    ls2: int,
)
    ensures
        toks_views(ts.push(t)) == toks_views(ts) + seq![t@],
        spec_lex(gs, i2, line2, ls2) matches Ok(rest) ==> toks_views(ts) + (seq![t@] + rest) == (
        toks_views(ts) + seq![t@]) + rest,
{
    assert(toks_views(ts.push(t)) =~= toks_views(ts) + seq![t@]);
    if spec_lex(gs, i2, line2, ls2) is Ok {
        let rest = spec_lex(gs, i2, line2, ls2)->Ok_0;
        assert(toks_views(ts) + (seq![t@] + rest) =~= (toks_views(ts) + seq![t@]) + rest);
    }
}

/// Classify an identifier: a register written `xN`, an ABI register alias,
/// a recognized mnemonic, or otherwise a label.
pub fn classify_identifier(ident: &str) -> (r: Token)
    ensures
        r@ == spec_classify(ident@),
{
    if !ident.is_ascii() {
        return Token::Label(String::from_str(ident));
    }
    match numeric_register(ident) {
        Some(n) => {
            return Token::Register(n);
        },
        None => {},
    }
    match abi_to_register(ident) {
        Some(n) => {
            return Token::Register(n);
        },
        None => {},
    }
    if is_mnemonic_exec(ident) {
        return Token::Instruction(String::from_str(ident));
    }
    Token::Label(String::from_str(ident))
}

} // verus!
