//! The parser: a one-token-lookahead recursive-descent consumer turning the
//! token stream into a list of statements.

use vstd::prelude::*;
use crate::lexer::{SpannedToken, SpannedTokenModel, Token, TokenModel, toks_views};
use crate::text::{dec_i, dec_u, i32_to_dec, u32_to_dec};

verus! {

/// The offset of a memory operand: a literal displacement or a label whose
/// address the encoder resolves.
#[derive(Debug, PartialEq, Clone)]
pub enum MemoryOffset {
    Immediate(i32),
    Label(String),
}

/// A parsed operand.
#[derive(Debug, PartialEq)]
pub enum Operand {
    Register(u8),
    Immediate(i32),
    Label(String),
    StringLiteral(String),
    Memory { offset: MemoryOffset, reg: u8 },
}

/// One statement with the 1-based source line it came from.
#[derive(Debug, PartialEq)]
pub struct Statement {
    pub kind: StatementKind,
    pub line: usize,
}

/// What a statement is: an instruction with operands, a label definition,
/// or an assembler directive with operands.
#[derive(Debug, PartialEq)]
pub enum StatementKind {
    Instruction(String, Vec<Operand>),
    Label(String),
    Directive(String, Vec<Operand>),
}

/// A parse error: the offending 1-based line and a description.
#[derive(Debug, PartialEq, Clone)]
pub struct ParseError {
    pub line: usize,
    pub message: String,
}

/// Mathematical model of a memory-operand offset.
pub enum MemOffsetModel {
    Immediate(i32),
    Label(Seq<char>),
}

/// Mathematical model of an operand.
pub enum OperandModel {
    Register(u8),
    Immediate(i32),
    Label(Seq<char>),
    StringLiteral(Seq<char>),
    Memory { offset: MemOffsetModel, reg: u8 },
}

/// Mathematical model of a statement kind.
pub enum StatementKindModel {
    Instruction(Seq<char>, Seq<OperandModel>),
    Label(Seq<char>),
    Directive(Seq<char>, Seq<OperandModel>),
}

/// Mathematical model of a statement.
pub struct StatementModel {
    pub kind: StatementKindModel,
    pub line: int,
}

/// Mathematical model of a parse error.
pub struct ParseErrorModel {
    pub line: int,
    pub message: Seq<char>,
}

impl View for MemoryOffset {
    type V = MemOffsetModel;

    open spec fn view(&self) -> MemOffsetModel {
        match self {
            MemoryOffset::Immediate(v) => MemOffsetModel::Immediate(*v),
            MemoryOffset::Label(s) => MemOffsetModel::Label(s@),
        }
    }
}

impl View for Operand {
    type V = OperandModel;

    open spec fn view(&self) -> OperandModel {
        match self {
            Operand::Register(r) => OperandModel::Register(*r),
            Operand::Immediate(v) => OperandModel::Immediate(*v),
            Operand::Label(s) => OperandModel::Label(s@),
            Operand::StringLiteral(s) => OperandModel::StringLiteral(s@),
            Operand::Memory { offset, reg } => OperandModel::Memory {
                offset: offset@,
                reg: *reg,
            },
        }
    }
}

/// The models of a sequence of operands.
pub open spec fn ops_views(ops: Seq<Operand>) -> Seq<OperandModel> {
    ops.map_values(|o: Operand| o@)
}

impl View for StatementKind {
    type V = StatementKindModel;

    open spec fn view(&self) -> StatementKindModel {
        match self {
            StatementKind::Instruction(name, ops) => StatementKindModel::Instruction(
                name@,
                ops_views(ops@),
            ),
            StatementKind::Label(name) => StatementKindModel::Label(name@),
            StatementKind::Directive(name, ops) => StatementKindModel::Directive(
                name@,
                ops_views(ops@),
            ),
        }
    }
}

impl View for Statement {
    type V = StatementModel;

    open spec fn view(&self) -> StatementModel {
        StatementModel { kind: self.kind@, line: self.line as int }
    }
}

/// The models of a sequence of statements.
pub open spec fn stmts_views(ss: Seq<Statement>) -> Seq<StatementModel> {
    ss.map_values(|s: Statement| s@)
}

impl View for ParseError {
    type V = ParseErrorModel;

    open spec fn view(&self) -> ParseErrorModel {
        ParseErrorModel { line: self.line as int, message: self.message@ }
    }
}

/// Has the cursor reached the end of the stream: past the last token or at
/// the end-of-input token?
pub open spec fn at_end(toks: Seq<SpannedTokenModel>, pos: int) -> bool {
    pos >= toks.len() || toks[pos].token is Eof
}

/// The line of the token at `p`, or `fallback` past the end of the stream.
pub open spec fn tok_line(toks: Seq<SpannedTokenModel>, p: int, fallback: int) -> int {
    if 0 <= p < toks.len() {
        toks[p].line
    } else {
        fallback
    }
}

/// The textual name of a token, as parse errors report it.
pub open spec fn spec_token_text(t: TokenModel) -> Seq<char> {
    match t {
        TokenModel::Instruction(s) => "instruction '"@ + s + "'"@,
        TokenModel::Register(n) => "register x"@ + dec_u(n as nat),
        TokenModel::Immediate(v) => "immediate "@ + dec_i(v as int),
        TokenModel::StringLiteral(s) => "string literal"@,
        TokenModel::Label(s) => "label '"@ + s + "'"@,
        TokenModel::Directive(s) => "directive '"@ + s + "'"@,
        TokenModel::Colon => "':'"@,
        TokenModel::Comma => "','"@,
        TokenModel::LParenthesis => "'('"@,
        TokenModel::RParenthesis => "')'"@,
        TokenModel::Newline => "newline"@,
        TokenModel::Eof => "end of input"@,
    }
}

/// The textual name of the token at `p`, or a note that the stream ended
/// there.
pub open spec fn found_text(toks: Seq<SpannedTokenModel>, p: int) -> Seq<char> {
    if 0 <= p < toks.len() {
        spec_token_text(toks[p].token)
    } else {
        "end of input"@
    }
}

/// Parse one operand at `pos`: a register, an immediate or label (either
/// optionally followed by a parenthesized base register, making a memory
/// operand), and otherwise an error.
pub open spec fn spec_parse_operand(toks: Seq<SpannedTokenModel>, pos: int) -> Result<
    (OperandModel, int),
    ParseErrorModel,
>
    recommends
        0 <= pos < toks.len(),
{
    let line = toks[pos].line;
    match toks[pos].token {
        TokenModel::Register(r) => Ok((OperandModel::Register(r), pos + 1)),
        TokenModel::Immediate(v) => {
            if pos + 1 < toks.len() && toks[pos + 1].token is LParenthesis {
                spec_parse_memory(toks, pos, MemOffsetModel::Immediate(v))
            } else {
                Ok((OperandModel::Immediate(v), pos + 1))
            }
        },
        TokenModel::Label(name) => {
            if pos + 1 < toks.len() && toks[pos + 1].token is LParenthesis {
                spec_parse_memory(toks, pos, MemOffsetModel::Label(name))
            } else {
                Ok((OperandModel::Label(name), pos + 1))
            }
        },
        _ => Err(
            ParseErrorModel {
                line,
                message: "An operand was expected (register, immediate or label). Found: "@
                    + spec_token_text(toks[pos].token),
            },
        ),
    }
}

/// Parse the parenthesized base register of a memory operand whose offset
/// token stands at `pos` and whose opening parenthesis at `pos + 1`.
pub open spec fn spec_parse_memory(
    toks: Seq<SpannedTokenModel>,
    pos: int,
    offset: MemOffsetModel,
) -> Result<(OperandModel, int), ParseErrorModel>
    recommends
        0 <= pos < toks.len(),
{
    let line = toks[pos].line;
    if pos + 2 >= toks.len() || !(toks[pos + 2].token is Register) {
        Err(
            ParseErrorModel {
                line: tok_line(toks, pos + 2, line),
                message: "A register was expected inside parentheses for memory addressing. Found: "@
                    + found_text(toks, pos + 2),
            },
        )
    } else if pos + 3 >= toks.len() || !(toks[pos + 3].token is RParenthesis) {
        Err(
            ParseErrorModel {
                line: tok_line(toks, pos + 3, line),
                message: "Right parenthesis expected after base register. Found: "@ + found_text(
                    toks,
                    pos + 3,
                ),
            },
        )
    } else {
        Ok((OperandModel::Memory { offset, reg: toks[pos + 2].token->Register_0 }, pos + 4))
    }
}

/// Parse one directive operand: a string literal, or any ordinary operand.
pub open spec fn spec_parse_directive_operand(toks: Seq<SpannedTokenModel>, pos: int) -> Result<
    (OperandModel, int),
    ParseErrorModel,
>
    recommends
        0 <= pos < toks.len(),
{
    match toks[pos].token {
        TokenModel::StringLiteral(sv) => Ok((OperandModel::StringLiteral(sv), pos + 1)),
        _ => spec_parse_operand(toks, pos),
    }
}

/// A successfully parsed operand ends past its start and within the
/// stream.
pub proof fn lemma_parse_operand_bounds(toks: Seq<SpannedTokenModel>, pos: int)
    requires
        0 <= pos < toks.len(),
    ensures
        spec_parse_operand(toks, pos) matches Ok(p) ==> pos < p.1 <= toks.len(),
        spec_parse_directive_operand(toks, pos) matches Ok(p) ==> pos < p.1 <= toks.len(),
{
}

/// Parse the `, operand` continuations after one parsed operand, using the
/// ordinary operand grammar.
pub open spec fn spec_operand_tail(toks: Seq<SpannedTokenModel>, pos: int) -> Result<
    (Seq<OperandModel>, int),
    ParseErrorModel,
>
    recommends
        0 <= pos <= toks.len(),
    decreases toks.len() - pos,
    via spec_operand_tail_dec
{
    if 0 <= pos < toks.len() && toks[pos].token is Comma {
        if pos + 1 >= toks.len() {
            Err(
                ParseErrorModel {
                    line: toks[pos].line,
                    message: "An operand was expected (register, immediate or label). Found: "@
                        + found_text(toks, pos + 1),
                },
            )
        } else {
            match spec_parse_operand(toks, pos + 1) {
                Err(e) => Err(e),
                Ok((op, p2)) => match spec_operand_tail(toks, p2) {
                    Err(e) => Err(e),
                    Ok((ops, e)) => Ok((seq![op] + ops, e)),
                },
            }
        }
    } else {
        Ok((Seq::empty(), pos))
    }
}

#[via_fn]
proof fn spec_operand_tail_dec(toks: Seq<SpannedTokenModel>, pos: int) {
    if 0 <= pos < toks.len() && toks[pos].token is Comma && pos + 1 < toks.len() {
        lemma_parse_operand_bounds(toks, pos + 1);
    }
}

/// Parse the `, operand` continuations using the directive operand
/// grammar.
pub open spec fn spec_dir_operand_tail(toks: Seq<SpannedTokenModel>, pos: int) -> Result<
    (Seq<OperandModel>, int),
    ParseErrorModel,
>
    recommends
        0 <= pos <= toks.len(),
    decreases toks.len() - pos,
    via spec_dir_operand_tail_dec
{
    if 0 <= pos < toks.len() && toks[pos].token is Comma {
        if pos + 1 >= toks.len() {
            Err(
                ParseErrorModel {
                    line: toks[pos].line,
                    message: "An operand was expected (register, immediate or label). Found: "@
                        + found_text(toks, pos + 1),
                },
            )
        } else {
            match spec_parse_directive_operand(toks, pos + 1) {
                Err(e) => Err(e),
                Ok((op, p2)) => match spec_dir_operand_tail(toks, p2) {
                    Err(e) => Err(e),
                    Ok((ops, e)) => Ok((seq![op] + ops, e)),
                },
            }
        }
    } else {
        Ok((Seq::empty(), pos))
    }
}

#[via_fn]
proof fn spec_dir_operand_tail_dec(toks: Seq<SpannedTokenModel>, pos: int) {
    if 0 <= pos < toks.len() && toks[pos].token is Comma && pos + 1 < toks.len() {
        lemma_parse_operand_bounds(toks, pos + 1);
    }
}

/// Does the token at `pos` terminate an operand list: a newline, the
/// end-of-input token, or the end of the stream?
pub open spec fn list_ends(toks: Seq<SpannedTokenModel>, pos: int) -> bool {
    pos >= toks.len() || toks[pos].token is Newline || toks[pos].token is Eof
}

/// Parse one source line at `pos`: a label definition, an instruction or
/// directive with its operand list, an empty line, or an error. Returns
/// the statement (none for an empty line) and the next cursor.
pub open spec fn spec_parse_line(toks: Seq<SpannedTokenModel>, pos: int) -> Result<
    (Option<StatementModel>, int),
    ParseErrorModel,
>
    recommends
        0 <= pos < toks.len(),
        !at_end(toks, pos),
{
    let line = toks[pos].line;
    match toks[pos].token {
        TokenModel::Label(name) => {
            if pos + 1 < toks.len() && toks[pos + 1].token is Colon {
                Ok(
                    (
                        Some(StatementModel { kind: StatementKindModel::Label(name), line }),
                        pos + 2,
                    ),
                )
            } else {
                Err(
                    ParseErrorModel {
                        line: tok_line(toks, pos + 1, line),
                        message: "A colon is expected after a label (':'). Found: "@ + found_text(
                            toks,
                            pos + 1,
                        ),
                    },
                )
            }
        },
        TokenModel::Instruction(name) => {
            if list_ends(toks, pos + 1) {
                Ok(
                    (
                        Some(
                            StatementModel {
                                kind: StatementKindModel::Instruction(name, Seq::empty()),
                                line,
                            },
                        ),
                        pos + 1,
                    ),
                )
            } else {
                match spec_parse_operand(toks, pos + 1) {
                    Err(e) => Err(e),
                    Ok((op, p2)) => match spec_operand_tail(toks, p2) {
                        Err(e) => Err(e),
                        Ok((ops, p3)) => Ok(
                            (
                                Some(
                                    StatementModel {
                                        kind: StatementKindModel::Instruction(
                                            name,
                                            seq![op] + ops,
                                        ),
                                        line,
                                    },
                                ),
                                p3,
                            ),
                        ),
                    },
                }
            }
        },
        TokenModel::Directive(name) => {
            if list_ends(toks, pos + 1) {
                Ok(
                    (
                        Some(
                            StatementModel {
                                kind: StatementKindModel::Directive(name, Seq::empty()),
                                line,
                            },
                        ),
                        pos + 1,
                    ),
                )
            } else {
                match spec_parse_directive_operand(toks, pos + 1) {
                    Err(e) => Err(e),
                    Ok((op, p2)) => match spec_dir_operand_tail(toks, p2) {
                        Err(e) => Err(e),
                        Ok((ops, p3)) => Ok(
                            (
                                Some(
                                    StatementModel {
                                        kind: StatementKindModel::Directive(name, seq![op] + ops),
                                        line,
                                    },
                                ),
                                p3,
                            ),
                        ),
                    },
                }
            }
        },
        TokenModel::Newline => Ok((None, pos + 1)),
        _ => Err(
            ParseErrorModel {
                line,
                message: "Unexpected token: "@ + spec_token_text(toks[pos].token),
            },
        ),
    }
}

/// A successfully parsed operand tail never moves the cursor backwards and
/// stays within the stream.
pub proof fn lemma_operand_tail_bounds(toks: Seq<SpannedTokenModel>, pos: int)
    requires
        0 <= pos <= toks.len(),
    ensures
        spec_operand_tail(toks, pos) matches Ok(p) ==> pos <= p.1 <= toks.len(),
        spec_dir_operand_tail(toks, pos) matches Ok(p) ==> pos <= p.1 <= toks.len(),
    decreases toks.len() - pos,
{
    if 0 <= pos < toks.len() && toks[pos].token is Comma && pos + 1 < toks.len() {
        lemma_parse_operand_bounds(toks, pos + 1);
        if spec_parse_operand(toks, pos + 1) is Ok {
            lemma_operand_tail_bounds(toks, spec_parse_operand(toks, pos + 1)->Ok_0.1);
        }
        if spec_parse_directive_operand(toks, pos + 1) is Ok {
            lemma_operand_tail_bounds(toks, spec_parse_directive_operand(toks, pos + 1)->Ok_0.1);
        }
    }
}

/// A successfully parsed line ends past its start and within the stream.
pub proof fn lemma_parse_line_bounds(toks: Seq<SpannedTokenModel>, pos: int)
    requires
        0 <= pos < toks.len(),
    ensures
        spec_parse_line(toks, pos) matches Ok(p) ==> pos < p.1 <= toks.len(),
{
    if pos + 1 <= toks.len() {
        if !list_ends(toks, pos + 1) && pos + 1 < toks.len() {
            lemma_parse_operand_bounds(toks, pos + 1);
            if spec_parse_operand(toks, pos + 1) is Ok {
                lemma_operand_tail_bounds(toks, spec_parse_operand(toks, pos + 1)->Ok_0.1);
            }
            if spec_parse_directive_operand(toks, pos + 1) is Ok {
                lemma_operand_tail_bounds(
                    toks,
                    spec_parse_directive_operand(toks, pos + 1)->Ok_0.1,
                );
            }
        }
    }
}

/// Parse the whole stream from `pos`: the list of statements of all
/// remaining lines, or the first parse error.
pub open spec fn spec_parse(toks: Seq<SpannedTokenModel>, pos: int) -> Result<
    Seq<StatementModel>,
    ParseErrorModel,
>
    recommends
        0 <= pos <= toks.len(),
    decreases toks.len() - pos,
    via spec_parse_dec
{
    if pos < 0 || at_end(toks, pos) {
        Ok(Seq::empty())
    } else {
        match spec_parse_line(toks, pos) {
            Err(e) => Err(e),
            Ok((None, p2)) => spec_parse(toks, p2),
            Ok((Some(st), p2)) => match spec_parse(toks, p2) {
                Err(e) => Err(e),
                Ok(sts) => Ok(seq![st] + sts),
            },
        }
    }
}

#[via_fn]
proof fn spec_parse_dec(toks: Seq<SpannedTokenModel>, pos: int) {
    if !(pos < 0 || at_end(toks, pos)) {
        lemma_parse_line_bounds(toks, pos);
    }
}

/// The textual name of a token, as parse errors report it.
fn token_text(t: &Token) -> (r: String)
    ensures
        r@ == spec_token_text(t@),
{
    match t {
        Token::Instruction(s) => {
            let mut m = String::from_str("instruction '");
            m.append(s.as_str());
            m.append("'");
            m
        },
        Token::Register(n) => {
            let mut m = String::from_str("register x");
            m.append(u32_to_dec(*n as u32).as_str());
            m
        },
        Token::Immediate(v) => {
            let mut m = String::from_str("immediate ");
            m.append(i32_to_dec(*v).as_str());
            m
        },
        Token::StringLiteral(_) => String::from_str("string literal"),
        Token::Label(s) => {
            let mut m = String::from_str("label '");
            m.append(s.as_str());
            m.append("'");
            m
        },
        Token::Directive(s) => {
            let mut m = String::from_str("directive '");
            m.append(s.as_str());
            m.append("'");
            m
        },
        Token::Colon => String::from_str("':'"),
        Token::Comma => String::from_str("','"),
        Token::LParenthesis => String::from_str("'('"),
        Token::RParenthesis => String::from_str("')'"),
        Token::Newline => String::from_str("newline"),
        Token::Eof => String::from_str("end of input"),
    }
}

/// The parser state: the token stream and a cursor into it.
pub struct Parser {
    pub tokens: Vec<SpannedToken>,
    pub position: usize,
}

impl Parser {
    /// The models of the tokens held by this parser.
    pub open spec fn toks(&self) -> Seq<SpannedTokenModel> {
        toks_views(self.tokens@)
    }

    /// A parser over `tokens`, with the cursor at the first token.
    pub fn new(tokens: Vec<SpannedToken>) -> (r: Parser)
        ensures
            r.toks() == toks_views(tokens@),
            r.position == 0,
    {
        Parser { tokens, position: 0 }
    }

    /// Has the cursor reached the end of the stream?
    fn is_at_end(&self) -> (r: bool)
        ensures
            r == at_end(self.toks(), self.position as int),
    {
        if self.position >= self.tokens.len() {
            return true;
        }
        proof {
            assert(self.toks()[self.position as int] == self.tokens@[self.position as int]@);
        }
        match self.tokens[self.position].token {
            Token::Eof => true,
            _ => false,
        }
    }

    /// The textual name of the token at `p`, or a note that the stream
    /// ended there.
    fn found_at(&self, p: usize) -> (r: String)
        ensures
            r@ == found_text(self.toks(), p as int),
    {
        if p < self.tokens.len() {
            proof {
                assert(self.toks()[p as int] == self.tokens@[p as int]@);
            }
            token_text(&self.tokens[p].token)
        } else {
            String::from_str("end of input")
        }
    }

    /// Parse one operand at the cursor and advance past it.
    fn parse_operand(&mut self) -> (r: Result<Operand, ParseError>)
        requires
            old(self).position < old(self).toks().len(),
        ensures
            final(self).tokens == old(self).tokens,
            (match spec_parse_operand(old(self).toks(), old(self).position as int) {
                Ok(p) => r matches Ok(op) && op@ == p.0 && final(self).position == p.1,
                Err(e) => r matches Err(pe) && pe@ == e,
            }),
    {
        let ghost toks = self.toks();
        let ghost pos = self.position as int;
        proof {
            assert(toks[pos] == self.tokens@[pos]@);
        }
        let n = self.tokens.len();
        let line = self.tokens[self.position].line;
        let is_mem = n - self.position > 1 && (match self.tokens[self.position + 1].token {
            Token::LParenthesis => true,
            _ => false,
        });
        proof {
            if self.position + 1 < self.tokens@.len() {
                assert(toks[pos + 1] == self.tokens@[pos + 1]@);
            }
        }
        match &self.tokens[self.position].token {
            Token::Register(r) => {
                let reg = *r;
                self.position = self.position + 1;
                Ok(Operand::Register(reg))
            },
            Token::Immediate(v) => {
                let imm = *v;
                if is_mem {
                    self.parse_memory(MemoryOffset::Immediate(imm))
                } else {
                    self.position = self.position + 1;
                    Ok(Operand::Immediate(imm))
                }
            },
            Token::Label(name) => {
                let label = name.clone();
                if is_mem {
                    self.parse_memory(MemoryOffset::Label(label))
                } else {
                    self.position = self.position + 1;
                    Ok(Operand::Label(label))
                }
            },
            t => {
                let mut message = String::from_str(
                    "An operand was expected (register, immediate or label). Found: ",
                );
                message.append(token_text(t).as_str());
                Err(ParseError { line, message })
            },
        }
    }

    /// Parse the parenthesized base register of a memory operand whose
    /// offset token stands at the cursor.
    fn parse_memory(&mut self, offset: MemoryOffset) -> (r: Result<Operand, ParseError>)
        requires
            old(self).position < old(self).toks().len(),
        ensures
            final(self).tokens == old(self).tokens,
            (match spec_parse_memory(old(self).toks(), old(self).position as int, offset@) {
                Ok(p) => r matches Ok(op) && op@ == p.0 && final(self).position == p.1,
                Err(e) => r matches Err(pe) && pe@ == e,
            }),
    {
        let ghost toks = self.toks();
        let ghost pos = self.position as int;
        proof {
            assert(toks[pos] == self.tokens@[pos]@);
            if pos + 2 < toks.len() {
                assert(toks[pos + 2] == self.tokens@[pos + 2]@);
            }
            if pos + 3 < toks.len() {
                assert(toks[pos + 3] == self.tokens@[pos + 3]@);
            }
        }
        let n = self.tokens.len();
        let line = self.tokens[self.position].line;
        if n - self.position <= 2 {
            let mut message = String::from_str(
                "A register was expected inside parentheses for memory addressing. Found: ",
            );
            message.append("end of input");
            return Err(ParseError { line, message });
        }
        let reg: u8 = match &self.tokens[self.position + 2].token {
            Token::Register(r) => *r,
            t => {
                let mut message = String::from_str(
                    "A register was expected inside parentheses for memory addressing. Found: ",
                );
                message.append(token_text(t).as_str());
                return Err(
                    ParseError { line: self.tokens[self.position + 2].line, message },
                );
            },
        };
        if n - self.position <= 3 {
            let mut message = String::from_str(
                "Right parenthesis expected after base register. Found: ",
            );
            message.append("end of input");
            return Err(ParseError { line, message });
        }
        match &self.tokens[self.position + 3].token {
            Token::RParenthesis => {},
            t => {
                let mut message = String::from_str(
                    "Right parenthesis expected after base register. Found: ",
                );
                message.append(token_text(t).as_str());
                return Err(
                    ParseError { line: self.tokens[self.position + 3].line, message },
                );
            },
        }
        self.position = self.position + 4;
        Ok(Operand::Memory { offset, reg })
    }

    /// Parse one directive operand: a string literal or any ordinary
    /// operand.
    fn parse_directive_operand(&mut self) -> (r: Result<Operand, ParseError>)
        requires
            old(self).position < old(self).toks().len(),
        ensures
            final(self).tokens == old(self).tokens,
            (match spec_parse_directive_operand(old(self).toks(), old(self).position as int) {
                Ok(p) => r matches Ok(op) && op@ == p.0 && final(self).position == p.1,
                Err(e) => r matches Err(pe) && pe@ == e,
            }),
    {
        let ghost toks = self.toks();
        let ghost pos = self.position as int;
        let _n: usize = self.tokens.len();
        proof {
            assert(toks[pos] == self.tokens@[pos]@);
        }
        match &self.tokens[self.position].token {
            Token::StringLiteral(s) => {
                let sv = s.clone();
                self.position = self.position + 1;
                Ok(Operand::StringLiteral(sv))
            },
            _ => self.parse_operand(),
        }
    }

    /// Parse the comma-separated operands after the first one, with
    /// `directive` selecting the directive operand grammar.
    #[verifier::loop_isolation(false)]
    fn parse_operand_tail(&mut self, directive: bool, first: Operand) -> (r: Result<
        Vec<Operand>,
        ParseError,
    >)
        requires
            old(self).position <= old(self).toks().len(),
        ensures
            final(self).tokens == old(self).tokens,
            (match (if directive {
                spec_dir_operand_tail(old(self).toks(), old(self).position as int)
            } else {
                spec_operand_tail(old(self).toks(), old(self).position as int)
            }) {
                Ok(p) => r matches Ok(ops) && ops_views(ops@) == seq![first@] + p.0
                    && final(self).position == p.1,
                Err(e) => r matches Err(pe) && pe@ == e,
            }),
    {
        let ghost toks = self.toks();
        let ghost pos0 = self.position as int;
        let mut operands: Vec<Operand> = Vec::new();
        operands.push(first);
        proof {
            assert(ops_views(operands@) =~= seq![first@]);
        }
        loop
            invariant
                self.tokens == old(self).tokens,
                self.toks() == toks,
                self.position <= toks.len(),
                (match (if directive {
                    spec_dir_operand_tail(toks, self.position as int)
                } else {
                    spec_operand_tail(toks, self.position as int)
                }) {
                    Ok(p) => (if directive {
                        spec_dir_operand_tail(toks, pos0)
                    } else {
                        spec_operand_tail(toks, pos0)
                    }) == Ok::<(Seq<OperandModel>, int), ParseErrorModel>(
                        (ops_views(operands@).drop_first() + p.0, p.1),
                    ),
                    Err(e) => (if directive {
                        spec_dir_operand_tail(toks, pos0)
                    } else {
                        spec_operand_tail(toks, pos0)
                    }) == Err::<(Seq<OperandModel>, int), ParseErrorModel>(e),
                }),
                ops_views(operands@).len() >= 1,
                ops_views(operands@)[0] == first@,
                ops_views(operands@) == seq![first@] + ops_views(operands@).drop_first(),
            decreases toks.len() - self.position,
        {
            let n = self.tokens.len();
            let has_comma = self.position < n && (match self.tokens[self.position].token {
                Token::Comma => true,
                _ => false,
            });
            proof {
                if self.position < self.tokens@.len() {
                    assert(toks[self.position as int] == self.tokens@[self.position as int]@);
                }
            }
            if !has_comma {
                proof {
                    assert(ops_views(operands@).drop_first() + Seq::<OperandModel>::empty()
                        =~= ops_views(operands@).drop_first());
                }
                return Ok(operands);
            }
            let ghost pcomma = self.position as int;
            if n - self.position <= 1 {
                let mut message = String::from_str(
                    "An operand was expected (register, immediate or label). Found: ",
                );
                message.append("end of input");
                return Err(ParseError { line: self.tokens[self.position].line, message });
            }
            self.position = self.position + 1;
            let op = if directive {
                match self.parse_directive_operand() {
                    Ok(op) => op,
                    Err(e) => {
                        return Err(e);
                    },
                }
            } else {
                match self.parse_operand() {
                    Ok(op) => op,
                    Err(e) => {
                        return Err(e);
                    },
                }
            };
            proof {
                lemma_parse_operand_bounds(toks, pcomma + 1);
            }
            let ghost before = ops_views(operands@);
            operands.push(op);
            proof {
                assert(ops_views(operands@) =~= before.push(op@));
                assert(ops_views(operands@).drop_first() =~= before.drop_first().push(op@));
                if (if directive {
                    spec_dir_operand_tail(toks, self.position as int)
                } else {
                    spec_operand_tail(toks, self.position as int)
                }) is Ok {
                    let p = (if directive {
                        spec_dir_operand_tail(toks, self.position as int)
                    } else {
                        spec_operand_tail(toks, self.position as int)
                    })->Ok_0;
                    assert(before.drop_first() + (seq![op@] + p.0) =~= before.drop_first().push(
                        op@,
                    ) + p.0);
                }
                assert(ops_views(operands@) =~= seq![first@] + ops_views(
                    operands@,
                ).drop_first());
            }
        }
    }

    /// Parse one line at the cursor: a statement, nothing for an empty
    /// line, or an error.
    fn parse_line(&mut self) -> (r: Result<Option<Statement>, ParseError>)
        requires
            old(self).position < old(self).toks().len(),
            !at_end(old(self).toks(), old(self).position as int),
        ensures
            final(self).tokens == old(self).tokens,
            (match spec_parse_line(old(self).toks(), old(self).position as int) {
                Ok(p) => r matches Ok(os) && (match p.0 {
                    Some(st) => os matches Some(s) && s@ == st,
                    None => os is None,
                }) && final(self).position == p.1,
                Err(e) => r matches Err(pe) && pe@ == e,
            }),
    {
        let ghost toks = self.toks();
        let ghost pos = self.position as int;
        proof {
            assert(toks[pos] == self.tokens@[pos]@);
            if pos + 1 < toks.len() {
                assert(toks[pos + 1] == self.tokens@[pos + 1]@);
            }
        }
        let n = self.tokens.len();
        let line = self.tokens[self.position].line;
        match &self.tokens[self.position].token {
            Token::Label(name) => {
                let label = name.clone();
                let has_colon = n - self.position > 1 && (match self.tokens[self.position
                    + 1].token {
                    Token::Colon => true,
                    _ => false,
                });
                if has_colon {
                    self.position = self.position + 2;
                    Ok(Some(Statement { kind: StatementKind::Label(label), line }))
                } else {
                    let eline = if n - self.position > 1 {
                        self.tokens[self.position + 1].line
                    } else {
                        line
                    };
                    let mut message = String::from_str(
                        "A colon is expected after a label (':'). Found: ",
                    );
                    message.append(self.found_at(self.position + 1).as_str());
                    Err(ParseError { line: eline, message })
                }
            },
            Token::Instruction(name) => {
                let mnemonic = name.clone();
                self.position = self.position + 1;
                proof {
                    assert(ops_views(Seq::<Operand>::empty()) =~= Seq::<OperandModel>::empty());
                }
                if self.ends_list() {
                    return Ok(
                        Some(
                            Statement {
                                kind: StatementKind::Instruction(mnemonic, Vec::new()),
                                line,
                            },
                        ),
                    );
                }
                let first = match self.parse_operand() {
                    Ok(op) => op,
                    Err(e) => {
                        return Err(e);
                    },
                };
                proof {
                    lemma_parse_operand_bounds(toks, pos + 1);
                }
                let operands = match self.parse_operand_tail(false, first) {
                    Ok(ops) => ops,
                    Err(e) => {
                        return Err(e);
                    },
                };
                Ok(Some(Statement { kind: StatementKind::Instruction(mnemonic, operands), line }))
            },
            Token::Directive(name) => {
                let directive = name.clone();
                self.position = self.position + 1;
                proof {
                    assert(ops_views(Seq::<Operand>::empty()) =~= Seq::<OperandModel>::empty());
                }
                if self.ends_list() {
                    return Ok(
                        Some(
                            Statement {
                                kind: StatementKind::Directive(directive, Vec::new()),
                                line,
                            },
                        ),
                    );
                }
                let first = match self.parse_directive_operand() {
                    Ok(op) => op,
                    Err(e) => {
                        return Err(e);
                    },
                };
                proof {
                    lemma_parse_operand_bounds(toks, pos + 1);
                }
                let operands = match self.parse_operand_tail(true, first) {
                    Ok(ops) => ops,
                    Err(e) => {
                        return Err(e);
                    },
                };
                Ok(Some(Statement { kind: StatementKind::Directive(directive, operands), line }))
            },
            Token::Newline => {
                self.position = self.position + 1;
                Ok(None)
            },
            t => {
                let mut message = String::from_str("Unexpected token: ");
                message.append(token_text(t).as_str());
                Err(ParseError { line, message })
            },
        }
    }

    /// Does the token at the cursor end an operand list?
    fn ends_list(&self) -> (r: bool)
        ensures
            r == list_ends(self.toks(), self.position as int),
    {
        if self.position >= self.tokens.len() {
            return true;
        }
        proof {
            assert(self.toks()[self.position as int] == self.tokens@[self.position as int]@);
        }
        match self.tokens[self.position].token {
            Token::Newline => true,
            Token::Eof => true,
            _ => false,
        }
    }

    /// Parse the whole stream into the list of statements of its lines, or
    /// report the first parse error.
    #[verifier::loop_isolation(false)]
    pub fn parse(&mut self) -> (r: Result<Vec<Statement>, ParseError>)
        requires
            old(self).position <= old(self).toks().len(),
        ensures
            final(self).tokens == old(self).tokens,
            (match spec_parse(old(self).toks(), old(self).position as int) {
                Ok(sts) => r matches Ok(v) && stmts_views(v@) == sts,
                Err(e) => r matches Err(pe) && pe@ == e,
            }),
    {
        let ghost toks = self.toks();
        let ghost pos0 = self.position as int;
        let mut nodes: Vec<Statement> = Vec::new();
        loop
            invariant
                self.tokens == old(self).tokens,
                self.toks() == toks,
                self.position <= toks.len(),
                (match spec_parse(toks, self.position as int) {
                    Ok(rest) => spec_parse(toks, pos0) == Ok::<Seq<StatementModel>, ParseErrorModel>(
                        stmts_views(nodes@) + rest,
                    ),
                    Err(e) => spec_parse(toks, pos0) == Err::<Seq<StatementModel>, ParseErrorModel>(
                        e,
                    ),
                }),
            decreases toks.len() - self.position,
        {
            if self.is_at_end() {
                proof {
                    assert(stmts_views(nodes@) + Seq::<StatementModel>::empty() =~= stmts_views(
                        nodes@,
                    ));
                }
                return Ok(nodes);
            }
            let ghost p = self.position as int;
            match self.parse_line() {
                Err(e) => {
                    return Err(e);
                },
                Ok(None) => {
                    proof {
                        lemma_parse_line_bounds(toks, p);
                    }
                },
                Ok(Some(st)) => {
                    proof {
                        lemma_parse_line_bounds(toks, p);
                    }
                    let ghost before = stmts_views(nodes@);
                    let ghost stm = st@;
                    nodes.push(st);
                    proof {
                        assert(stmts_views(nodes@) =~= before.push(stm));
                        if spec_parse(toks, self.position as int) is Ok {
                            let rest = spec_parse(toks, self.position as int)->Ok_0;
                            assert(before + (seq![stm] + rest) =~= before.push(stm) + rest);
                        }
                    }
                },
            }
        }
    }
}

} // verus!
