//! The encoder pass: statements and the symbol table to bit-exact RV32I
//! machine words, a data segment, and an address-to-source debug map.

use vstd::prelude::*;
use vstd::string::StringSliceAdditionalSpecFns;
use crate::lexer::str_eq;
use crate::parser::{MemOffsetModel, MemoryOffset, Operand, OperandModel, Statement, StatementKind,
    StatementKindModel, StatementModel, ops_views, stmts_views};
use crate::processor::{Instruction, w_add, w_sub};
use crate::symbols::{SymbolTable, spec_lookup, wrap32};
use crate::text::{dec_i, dec_u, i32_to_dec, u32_to_dec};

verus! {

/// An error produced while encoding one statement, with its 1-based source
/// line.
#[derive(Debug, Clone, PartialEq)]
pub struct AssemblerError {
    pub line: usize,
    pub message: String,
}

/// Mathematical model of an assembler error.
pub struct AssemblerErrorModel {
    pub line: int,
    pub message: Seq<char>,
}

impl View for AssemblerError {
    type V = AssemblerErrorModel;

    open spec fn view(&self) -> AssemblerErrorModel {
        AssemblerErrorModel { line: self.line as int, message: self.message@ }
    }
}

impl AssemblerError {
    /// An error for line `line` with the given description.
    pub fn new(line: usize, message: String) -> (r: AssemblerError)
        ensures
            r@.line == line as int,
            r@.message == message@,
    {
        AssemblerError { line, message }
    }
}

/// What one emitted address meant in the source: the rendered statement,
/// its line, and the section it was placed in.
#[derive(Debug)]
pub struct SourceMapping {
    pub raw_text: String,
    pub line: usize,
    pub section: String,
}

/// Mathematical model of a source mapping.
pub struct SourceMappingModel {
    pub raw_text: Seq<char>,
    pub line: int,
    pub section: Seq<char>,
}

impl View for SourceMapping {
    type V = SourceMappingModel;

    open spec fn view(&self) -> SourceMappingModel {
        SourceMappingModel {
            raw_text: self.raw_text@,
            line: self.line as int,
            section: self.section@,
        }
    }
}

/// The address-to-source map produced while encoding, in emission order;
/// for an address recorded twice the later entry supersedes the earlier.
#[derive(Debug)]
pub struct DebugInfo {
    pub address_to_source: Vec<(u32, SourceMapping)>,
}

/// The models of the debug-map entries.
pub open spec fn dbg_views(entries: Seq<(u32, SourceMapping)>) -> Seq<(u32, SourceMappingModel)> {
    entries.map_values(|p: (u32, SourceMapping)| (p.0, p.1@))
}

/// The rendering of one operand, as the debug map records it.
fn operand_text(op: &Operand) -> (r: String)
    ensures
        r@ == spec_operand_text(op@),
{
    proof {
        reveal_strlit("x");
        assert("x"@ =~= seq!['x']);
        reveal_strlit("\"");
        assert("\""@ =~= seq!['"']);
        reveal_strlit("(");
        assert("("@ =~= seq!['(']);
        reveal_strlit(")");
        assert(")"@ =~= seq![')']);
    }
    match op {
        Operand::Register(r) => {
            let mut s = String::from_str("x");
            s.append(u32_to_dec(*r as u32).as_str());
            s
        },
        Operand::Immediate(v) => i32_to_dec(*v),
        Operand::Label(l) => l.clone(),
        Operand::StringLiteral(sv) => {
            let mut s = String::from_str("\"");
            s.append(sv.as_str());
            s.append("\"");
            s
        },
        Operand::Memory { offset, reg } => {
            let mut s = match offset {
                MemoryOffset::Immediate(v) => i32_to_dec(*v),
                MemoryOffset::Label(l) => l.clone(),
            };
            s.append("(");
            s.append("x");
            s.append(u32_to_dec(*reg as u32).as_str());
            s.append(")");
            s
        },
    }
}

/// The rendering of one statement, as the debug map records it.
pub fn statement_text(stmt: &Statement) -> (r: String)
    ensures
        r@ == spec_statement_text(stmt@),
{
    proof {
        reveal_strlit(" ");
        assert(" "@ =~= seq![' ']);
        reveal_strlit(":");
        assert(":"@ =~= seq![':']);
    }
    match &stmt.kind {
        StatementKind::Label(name) => {
            let mut s = name.clone();
            s.append(":");
            s
        },
        StatementKind::Instruction(name, ops) => {
            let mut s = name.clone();
            if ops.len() > 0 {
                s.append(" ");
                s.append(operands_text(ops.as_slice()).as_str());
            }
            s
        },
        StatementKind::Directive(name, ops) => {
            let mut s = name.clone();
            if ops.len() > 0 {
                s.append(" ");
                s.append(operands_text(ops.as_slice()).as_str());
            }
            s
        },
    }
}

/// The characters of `s`, each truncated to its low byte.
pub open spec fn bytes_of_chars(s: Seq<char>) -> Seq<u8> {
    s.map(|k: int, c: char| c as u8)
}

/// The four little-endian bytes of a 32-bit word.
pub open spec fn le4(v: u32) -> Seq<u8> {
    seq![
        (v % 0x100) as u8,
        ((v / 0x100) % 0x100) as u8,
        ((v / 0x1_0000) % 0x100) as u8,
        (v / 0x100_0000) as u8,
    ]
}

/// The two little-endian bytes of the low half of a 32-bit value.
pub open spec fn le2(v: u32) -> Seq<u8> {
    seq![(v % 0x100) as u8, ((v / 0x100) % 0x100) as u8]
}

/// An R-type machine word: `funct7 | rs2 | rs1 | funct3 | rd | opcode`.
pub open spec fn spec_encode_r(opcode: u32, funct3: u32, funct7: u32, ops: Seq<OperandModel>)
    -> Result<u32, Seq<char>> {
    if ops.len() == 3 && ops[0] is Register && ops[1] is Register && ops[2] is Register {
        let rd = ops[0]->Register_0 as u32;
        let rs1 = ops[1]->Register_0 as u32;
        let rs2 = ops[2]->Register_0 as u32;
        Ok((funct7 << 25) | (rs2 << 20) | (rs1 << 15) | (funct3 << 12) | (rd << 7) | opcode)
    } else {
        Err("Invalid operands for R-type instruction: expected 3 registers (rd, rs1, rs2)"@)
    }
}

/// An I-type machine word: `imm[11:0] | rs1 | funct3 | rd | opcode`.
pub open spec fn spec_encode_i(opcode: u32, funct3: u32, ops: Seq<OperandModel>) -> Result<
    u32,
    Seq<char>,
> {
    if ops.len() == 3 && ops[0] is Register && ops[1] is Register && ops[2] is Immediate {
        let rd = ops[0]->Register_0 as u32;
        let rs1 = ops[1]->Register_0 as u32;
        let imm = ops[2]->Immediate_0 as u32;
        Ok((imm << 20) | (rs1 << 15) | (funct3 << 12) | (rd << 7) | opcode)
    } else {
        Err("Invalid operands for I-type instruction: expected register, register, immediate"@)
    }
}

/// A shift-immediate machine word; the shift amount must lie in 0 to 31.
pub open spec fn spec_encode_i_shift(
    opcode: u32,
    funct3: u32,
    funct7: u32,
    ops: Seq<OperandModel>,
) -> Result<u32, Seq<char>> {
    if ops.len() == 3 && ops[0] is Register && ops[1] is Register && ops[2] is Immediate {
        let rd = ops[0]->Register_0 as u32;
        let rs1 = ops[1]->Register_0 as u32;
        let shamt = ops[2]->Immediate_0;
        if shamt < 0 || shamt > 31 {
            Err("Shift amount "@ + dec_i(shamt as int) + " out of range (0-31)"@)
        } else {
            Ok(
                (funct7 << 25) | ((shamt as u32) << 20) | (rs1 << 15) | (funct3 << 12) | (rd << 7)
                    | opcode,
            )
        }
    } else {
        Err("Invalid operands for shift instruction: expected rd, rs1, shamt"@)
    }
}

/// An S-type machine word: `imm[11:5] | rs2 | rs1 | funct3 | imm[4:0] |
/// opcode`, the offset taken literally or resolved from the symbol table.
pub open spec fn spec_encode_s(
    opcode: u32,
    funct3: u32,
    ops: Seq<OperandModel>,
    entries: Seq<(Seq<char>, u32)>,
) -> Result<u32, Seq<char>> {
    if ops.len() == 2 && ops[0] is Register && ops[1] is Memory {
        let rs2 = ops[0]->Register_0 as u32;
        let reg = ops[1]->Memory_reg as u32;
        match ops[1]->Memory_offset {
            MemOffsetModel::Immediate(v) => Ok(spec_s_word(opcode, funct3, rs2, reg, v as u32)),
            MemOffsetModel::Label(name) => match spec_lookup(entries, name) {
                None => Err("Unknown label '"@ + name + "'"@),
                Some(a) => Ok(spec_s_word(opcode, funct3, rs2, reg, a)),
            },
        }
    } else {
        Err("Invalid operands for S-type instruction: expected reg, offset(reg)"@)
    }
}

/// The S-type word for a resolved 12-bit offset value.
pub open spec fn spec_s_word(opcode: u32, funct3: u32, rs2: u32, reg: u32, off: u32) -> u32 {
    let imm = off & 0xFFF;
    (((imm >> 5) & 0x7F) << 25) | (rs2 << 20) | (reg << 15) | (funct3 << 12) | ((imm & 0x1F) << 7)
        | opcode
}

/// A B-type machine word; a label offset becomes a displacement relative
/// to the instruction's own address.
pub open spec fn spec_encode_b(
    opcode: u32,
    funct3: u32,
    ops: Seq<OperandModel>,
    entries: Seq<(Seq<char>, u32)>,
    current_pc: u32,
) -> Result<u32, Seq<char>> {
    if ops.len() == 3 && ops[0] is Register && ops[1] is Register && (ops[2] is Immediate || ops[2]
        is Label) {
        let rs1 = ops[0]->Register_0 as u32;
        let rs2 = ops[1]->Register_0 as u32;
        match ops[2] {
            OperandModel::Immediate(v) => Ok(spec_b_word(opcode, funct3, rs1, rs2, v as u32)),
            OperandModel::Label(name) => match spec_lookup(entries, name) {
                None => Err("Unknown label '"@ + name + "'"@),
                Some(a) => Ok(spec_b_word(opcode, funct3, rs1, rs2, w_sub(a, current_pc))),
            },
            _ => Err("Invalid operands for B-type instruction: expected register, register, immediate"@),
        }
    } else {
        Err("Invalid operands for B-type instruction: expected register, register, immediate"@)
    }
}

/// The B-type word for a resolved 13-bit displacement.
pub open spec fn spec_b_word(opcode: u32, funct3: u32, rs1: u32, rs2: u32, off: u32) -> u32 {
    (((off >> 12) & 0x1) << 31) | (((off >> 5) & 0x3F) << 25) | (rs2 << 20) | (rs1 << 15) | (
    funct3 << 12) | (((off >> 1) & 0xF) << 8) | (((off >> 11) & 0x1) << 7) | opcode
}

/// A J-type machine word; a label offset becomes a displacement relative
/// to the instruction's own address.
pub open spec fn spec_encode_j(
    opcode: u32,
    ops: Seq<OperandModel>,
    entries: Seq<(Seq<char>, u32)>,
    current_pc: u32,
) -> Result<u32, Seq<char>> {
    if ops.len() == 2 && ops[0] is Register && (ops[1] is Immediate || ops[1] is Label) {
        let rd = ops[0]->Register_0 as u32;
        match ops[1] {
            OperandModel::Immediate(v) => Ok(spec_j_word(opcode, rd, v as u32)),
            OperandModel::Label(name) => match spec_lookup(entries, name) {
                None => Err("Unknown label '"@ + name + "'"@),
                Some(a) => Ok(spec_j_word(opcode, rd, w_sub(a, current_pc))),
            },
            _ => Err("Invalid operands for J-type instruction: expected register, immediate"@),
        }
    } else {
        Err("Invalid operands for J-type instruction: expected register, immediate"@)
    }
}

/// The J-type word for a resolved 21-bit displacement.
pub open spec fn spec_j_word(opcode: u32, rd: u32, off: u32) -> u32 {
    (((off >> 20) & 0x1) << 31) | (((off >> 1) & 0x3FF) << 21) | (((off >> 11) & 0x1) << 20) | ((
    (off >> 12) & 0xFF) << 12) | (rd << 7) | opcode
}

/// A U-type machine word: the 20-bit immediate in bits 31:12.
pub open spec fn spec_encode_u(opcode: u32, ops: Seq<OperandModel>) -> Result<u32, Seq<char>> {
    if ops.len() == 2 && ops[0] is Register && ops[1] is Immediate {
        let rd = ops[0]->Register_0 as u32;
        let imm = ops[1]->Immediate_0 as u32;
        Ok(((imm & 0xFFFFF) << 12) | (rd << 7) | opcode)
    } else {
        Err("Invalid operands for U-type instruction: expected register, immediate"@)
    }
}

/// The rendering of a memory-operand offset.
pub open spec fn spec_offset_text(off: MemOffsetModel) -> Seq<char> {
    match off {
        MemOffsetModel::Immediate(v) => dec_i(v as int),
        MemOffsetModel::Label(s) => s,
    }
}

/// The rendering of one operand.
pub open spec fn spec_operand_text(op: OperandModel) -> Seq<char> {
    match op {
        OperandModel::Register(r) => seq!['x'] + dec_u(r as nat),
        OperandModel::Immediate(v) => dec_i(v as int),
        OperandModel::Label(s) => s,
        OperandModel::StringLiteral(s) => seq!['"'] + s + seq!['"'],
        OperandModel::Memory { offset, reg } => spec_offset_text(offset) + seq!['('] + seq!['x']
            + dec_u(reg as nat) + seq![')'],
    }
}

/// The rendering of the operands from index `i` on, comma separated.
pub open spec fn spec_operands_text(ops: Seq<OperandModel>, i: int) -> Seq<char>
    decreases ops.len() - i,
{
    if i < 0 || i >= ops.len() {
        Seq::empty()
    } else if i == ops.len() - 1 {
        spec_operand_text(ops[i])
    } else {
        spec_operand_text(ops[i]) + seq![',', ' '] + spec_operands_text(ops, i + 1)
    }
}

/// The rendering of one statement, as the debug map records it.
pub open spec fn spec_statement_text(st: StatementModel) -> Seq<char> {
    match st.kind {
        StatementKindModel::Instruction(name, ops) => if ops.len() == 0 {
            name
        } else {
            name + seq![' '] + spec_operands_text(ops, 0)
        },
        StatementKindModel::Label(name) => name + seq![':'],
        StatementKindModel::Directive(name, ops) => if ops.len() == 0 {
            name
        } else {
            name + seq![' '] + spec_operands_text(ops, 0)
        },
    }
}

/// One instruction encoded to its machine word: dispatch on the mnemonic
/// to the format encoders of the RV32I tables.
pub open spec fn spec_encode_instruction(
    name: Seq<char>,
    ops: Seq<OperandModel>,
    entries: Seq<(Seq<char>, u32)>,
    current_pc: u32,
) -> Result<u32, Seq<char>> {
    if name == "add"@ {
        spec_encode_r(0x33, 0x0, 0x00, ops)
    } else if name == "sub"@ {
        spec_encode_r(0x33, 0x0, 0x20, ops)
    } else if name == "sll"@ {
        spec_encode_r(0x33, 0x1, 0x00, ops)
    } else if name == "slt"@ {
        spec_encode_r(0x33, 0x2, 0x00, ops)
    } else if name == "sltu"@ {
        spec_encode_r(0x33, 0x3, 0x00, ops)
    } else if name == "xor"@ {
        spec_encode_r(0x33, 0x4, 0x00, ops)
    } else if name == "srl"@ {
        spec_encode_r(0x33, 0x5, 0x00, ops)
    } else if name == "sra"@ {
        spec_encode_r(0x33, 0x5, 0x20, ops)
    } else if name == "or"@ {
        spec_encode_r(0x33, 0x6, 0x00, ops)
    } else if name == "and"@ {
        spec_encode_r(0x33, 0x7, 0x00, ops)
    } else if name == "addi"@ {
        spec_encode_i(0x13, 0x0, ops)
    } else if name == "slti"@ {
        spec_encode_i(0x13, 0x2, ops)
    } else if name == "sltiu"@ {
        spec_encode_i(0x13, 0x3, ops)
    } else if name == "xori"@ {
        spec_encode_i(0x13, 0x4, ops)
    } else if name == "ori"@ {
        spec_encode_i(0x13, 0x6, ops)
    } else if name == "andi"@ {
        spec_encode_i(0x13, 0x7, ops)
    } else if name == "slli"@ {
        spec_encode_i_shift(0x13, 0x1, 0x00, ops)
    } else if name == "srli"@ {
        spec_encode_i_shift(0x13, 0x5, 0x00, ops)
    } else if name == "srai"@ {
        spec_encode_i_shift(0x13, 0x5, 0x20, ops)
    } else if name == "lb"@ {
        spec_encode_i(0x03, 0x0, ops)
    } else if name == "lh"@ {
        spec_encode_i(0x03, 0x1, ops)
    } else if name == "lw"@ {
        spec_encode_i(0x03, 0x2, ops)
    } else if name == "lbu"@ {
        spec_encode_i(0x03, 0x4, ops)
    } else if name == "lhu"@ {
        spec_encode_i(0x03, 0x5, ops)
    } else if name == "jalr"@ {
        spec_encode_i(0x67, 0x0, ops)
    } else if name == "sb"@ {
        spec_encode_s(0x23, 0x0, ops, entries)
    } else if name == "sh"@ {
        spec_encode_s(0x23, 0x1, ops, entries)
    } else if name == "sw"@ {
        spec_encode_s(0x23, 0x2, ops, entries)
    } else if name == "beq"@ {
        spec_encode_b(0x63, 0x0, ops, entries, current_pc)
    } else if name == "bne"@ {
        spec_encode_b(0x63, 0x1, ops, entries, current_pc)
    } else if name == "blt"@ {
        spec_encode_b(0x63, 0x4, ops, entries, current_pc)
    } else if name == "bge"@ {
        spec_encode_b(0x63, 0x5, ops, entries, current_pc)
    } else if name == "bltu"@ {
        spec_encode_b(0x63, 0x6, ops, entries, current_pc)
    } else if name == "bgeu"@ {
        spec_encode_b(0x63, 0x7, ops, entries, current_pc)
    } else if name == "lui"@ {
        spec_encode_u(0x37, ops)
    } else if name == "auipc"@ {
        spec_encode_u(0x17, ops)
    } else if name == "jal"@ {
        spec_encode_j(0x6F, ops, entries, current_pc)
    } else if name == "ecall"@ {
        Ok(0x00000073u32)
    } else if name == "ebreak"@ {
        Ok(0x00100073u32)
    } else if name == "fence"@ {
        Ok(0x0000000Fu32)
    } else {
        Err("Unsupported instruction '"@ + name + "'"@)
    }
}

/// The little-endian bytes of the immediate operands from index `i` on,
/// each `width` bytes wide; a non-immediate operand is rejected with `msg`.
pub open spec fn spec_imm_data(ops: Seq<OperandModel>, i: int, width: int, msg: Seq<char>)
    -> Result<Seq<u8>, Seq<char>>
    decreases ops.len() - i,
{
    if i < 0 || i >= ops.len() {
        Ok(Seq::empty())
    } else {
        match ops[i] {
            OperandModel::Immediate(v) => match spec_imm_data(ops, i + 1, width, msg) {
                Ok(rest) => Ok(
                    (if width == 4 {
                        le4(v as u32)
                    } else if width == 2 {
                        le2(v as u32)
                    } else {
                        seq![((v as u32) % 0x100) as u8]
                    }) + rest,
                ),
                Err(e) => Err(e),
            },
            _ => Err(msg),
        }
    }
}

/// The bytes of the string-literal operands from index `i` on, each
/// followed by a terminating zero byte when `nul` holds.
pub open spec fn spec_string_data(ops: Seq<OperandModel>, i: int, nul: bool) -> Result<
    Seq<u8>,
    Seq<char>,
>
    decreases ops.len() - i,
{
    if i < 0 || i >= ops.len() {
        Ok(Seq::empty())
    } else {
        match ops[i] {
            OperandModel::StringLiteral(s) => match spec_string_data(ops, i + 1, nul) {
                Ok(rest) => Ok(
                    bytes_of_chars(s) + (if nul {
                        seq![0u8]
                    } else {
                        Seq::empty()
                    }) + rest,
                ),
                Err(e) => Err(e),
            },
            _ => Err("Directive requires a string literal"@),
        }
    }
}

/// The bytes a data directive emits. Section and alignment directives are
/// handled by the encoding pass itself and never reach this table.
pub open spec fn spec_emit_data(name: Seq<char>, ops: Seq<OperandModel>) -> Result<
    Seq<u8>,
    Seq<char>,
> {
    if name == ".word"@ {
        if ops.len() == 0 {
            Err("Invalid operand for .word directive: expected immediate value"@)
        } else {
            spec_imm_data(ops, 0, 4, "Invalid operand for .word directive: expected immediate value"@)
        }
    } else if name == ".half"@ {
        if ops.len() == 0 {
            Err("Invalid operand for .half directive: expected immediate value"@)
        } else {
            spec_imm_data(ops, 0, 2, "Invalid operand for .half directive: expected immediate value"@)
        }
    } else if name == ".byte"@ {
        if ops.len() == 0 {
            Err("Invalid operand for .byte directive: expected immediate value"@)
        } else {
            spec_imm_data(ops, 0, 1, "Invalid operand for .byte directive: expected immediate value"@)
        }
    } else if name == ".ascii"@ || name == ".asciz"@ || name == ".string"@ {
        spec_string_data(ops, 0, name != ".ascii"@)
    } else if name == ".space"@ {
        if ops.len() >= 1 && ops[0] is Immediate {
            Ok(Seq::new((ops[0]->Immediate_0 as u32) as nat, |k: int| 0u8))
        } else {
            Err("Directive .space requires an immediate value"@)
        }
    } else {
        Err("Unsupported directive '"@ + name + "'"@)
    }
}

/// The running state of the encoding pass.
pub struct AsmState {
    pub text: Seq<u8>,
    pub data: Seq<u8>,
    pub dbg: Seq<(u32, SourceMappingModel)>,
    pub errors: Seq<AssemblerErrorModel>,
    pub cur_pc: u32,
    pub data_pc: u32,
    pub in_text: bool,
}

/// One step of the encoding pass on statement `st`: record the debug
/// mapping at the statement's address, then emit machine code or data, or
/// collect the statement's error and continue.
pub open spec fn spec_assemble_step(
    st: StatementModel,
    state: AsmState,
    entries: Seq<(Seq<char>, u32)>,
) -> AsmState {
    let addr = if state.in_text {
        state.cur_pc
    } else {
        state.data_pc
    };
    let s1 = AsmState {
        dbg: state.dbg.push(
            (
                addr,
                SourceMappingModel {
                    raw_text: spec_statement_text(st),
                    line: st.line,
                    section: if state.in_text {
                        ".text"@
                    } else {
                        ".data"@
                    },
                },
            ),
        ),
        ..state
    };
    match st.kind {
        StatementKindModel::Instruction(name, ops) => {
            match spec_encode_instruction(name, ops, entries, state.cur_pc) {
                Ok(w) => AsmState {
                    text: s1.text + le4(w),
                    cur_pc: w_add(s1.cur_pc, 4),
                    ..s1
                },
                Err(m) => AsmState {
                    errors: s1.errors.push(AssemblerErrorModel { line: st.line, message: m }),
                    ..s1
                },
            }
        },
        StatementKindModel::Directive(name, ops) => {
            if name == ".text"@ {
                AsmState { in_text: true, ..s1 }
            } else if name == ".data"@ {
                AsmState { in_text: false, ..s1 }
            } else if name == ".align"@ {
                match crate::symbols::spec_directive_size(name, ops, state.data_pc) {
                    Ok(sz) => AsmState {
                        data: s1.data + Seq::new(sz as nat, |k: int| 0u8),
                        data_pc: w_add(s1.data_pc, sz),
                        ..s1
                    },
                    Err(m) => AsmState {
                        errors: s1.errors.push(
                            AssemblerErrorModel { line: st.line, message: m },
                        ),
                        ..s1
                    },
                }
            } else {
                match spec_emit_data(name, ops) {
                    Ok(bs) => AsmState {
                        data: s1.data + bs,
                        data_pc: w_add(s1.data_pc, wrap32(bs.len() as int)),
                        ..s1
                    },
                    Err(m) => AsmState {
                        errors: s1.errors.push(
                            AssemblerErrorModel { line: st.line, message: m },
                        ),
                        ..s1
                    },
                }
            }
        },
        StatementKindModel::Label(name) => s1,
    }
}

/// The encoding pass over the statements from index `i` on.
pub open spec fn spec_assemble(
    stmts: Seq<StatementModel>,
    i: int,
    state: AsmState,
    entries: Seq<(Seq<char>, u32)>,
) -> AsmState
    decreases stmts.len() - i,
{
    if i < 0 || i >= stmts.len() {
        state
    } else {
        spec_assemble(stmts, i + 1, spec_assemble_step(stmts[i], state, entries), entries)
    }
}

/// The models of a sequence of assembler errors.
pub open spec fn errs_views(es: Seq<AssemblerError>) -> Seq<AssemblerErrorModel> {
    es.map_values(|e: AssemblerError| e@)
}


/// Encode one R-type instruction.
fn encode_r_type(opcode: u8, funct3: u8, funct7: u8, ops: &[Operand]) -> (r: Result<u32, String>)
    ensures
        (match spec_encode_r(opcode as u32, funct3 as u32, funct7 as u32, ops_views(ops@)) {
            Ok(w) => r matches Ok(x) && x == w,
            Err(m) => r matches Err(e) && e@ == m,
        }),
{
    let ghost opsm = ops_views(ops@);
    if ops.len() == 3 {
        proof {
            assert(opsm[0] == ops@[0]@);
            assert(opsm[1] == ops@[1]@);
            assert(opsm[2] == ops@[2]@);
        }
        match (&ops[0], &ops[1], &ops[2]) {
            (Operand::Register(rd), Operand::Register(rs1), Operand::Register(rs2)) => {
                return Ok(
                    ((funct7 as u32) << 25) | ((*rs2 as u32) << 20) | ((*rs1 as u32) << 15) | ((
                    funct3 as u32) << 12) | ((*rd as u32) << 7) | (opcode as u32),
                );
            },
            _ => {},
        }
    }
    Err(
        String::from_str(
            "Invalid operands for R-type instruction: expected 3 registers (rd, rs1, rs2)",
        ),
    )
}

/// Encode one I-type instruction.
fn encode_i_type(opcode: u8, funct3: u8, ops: &[Operand]) -> (r: Result<u32, String>)
    ensures
        (match spec_encode_i(opcode as u32, funct3 as u32, ops_views(ops@)) {
            Ok(w) => r matches Ok(x) && x == w,
            Err(m) => r matches Err(e) && e@ == m,
        }),
{
    let ghost opsm = ops_views(ops@);
    if ops.len() == 3 {
        proof {
            assert(opsm[0] == ops@[0]@);
            assert(opsm[1] == ops@[1]@);
            assert(opsm[2] == ops@[2]@);
        }
        match (&ops[0], &ops[1], &ops[2]) {
            (Operand::Register(rd), Operand::Register(rs1), Operand::Immediate(imm)) => {
                return Ok(
                    ((*imm as u32) << 20) | ((*rs1 as u32) << 15) | ((funct3 as u32) << 12) | ((
                    *rd as u32) << 7) | (opcode as u32),
                );
            },
            _ => {},
        }
    }
    Err(
        String::from_str(
            "Invalid operands for I-type instruction: expected register, register, immediate",
        ),
    )
}

/// Encode one shift-immediate instruction; the shift amount must lie in 0
/// to 31.
fn encode_i_shift(opcode: u8, funct3: u8, funct7: u8, ops: &[Operand]) -> (r: Result<u32, String>)
    ensures
        (match spec_encode_i_shift(opcode as u32, funct3 as u32, funct7 as u32, ops_views(ops@)) {
            Ok(w) => r matches Ok(x) && x == w,
            Err(m) => r matches Err(e) && e@ == m,
        }),
{
    let ghost opsm = ops_views(ops@);
    if ops.len() == 3 {
        proof {
            assert(opsm[0] == ops@[0]@);
            assert(opsm[1] == ops@[1]@);
            assert(opsm[2] == ops@[2]@);
        }
        match (&ops[0], &ops[1], &ops[2]) {
            (Operand::Register(rd), Operand::Register(rs1), Operand::Immediate(shamt)) => {
                if *shamt < 0 || *shamt > 31 {
                    let mut m = String::from_str("Shift amount ");
                    m.append(i32_to_dec(*shamt).as_str());
                    m.append(" out of range (0-31)");
                    return Err(m);
                }
                return Ok(
                    ((funct7 as u32) << 25) | ((*shamt as u32) << 20) | ((*rs1 as u32) << 15) | ((
                    funct3 as u32) << 12) | ((*rd as u32) << 7) | (opcode as u32),
                );
            },
            _ => {},
        }
    }
    Err(String::from_str("Invalid operands for shift instruction: expected rd, rs1, shamt"))
}

/// The message naming an unresolvable label.
fn unknown_label_message(name: &str) -> (r: String)
    ensures
        r@ == "Unknown label '"@ + name@ + "'"@,
{
    let mut m = String::from_str("Unknown label '");
    m.append(name);
    m.append("'");
    m
}

/// Encode one S-type (store) instruction, resolving a label offset against
/// the symbol table.
fn encode_s_type(
    opcode: u8,
    funct3: u8,
    ops: &[Operand],
    sym_table: &SymbolTable,
) -> (r: Result<u32, String>)
    ensures
        (match spec_encode_s(opcode as u32, funct3 as u32, ops_views(ops@), sym_table.entries()) {
            Ok(w) => r matches Ok(x) && x == w,
            Err(m) => r matches Err(e) && e@ == m,
        }),
{
    let ghost opsm = ops_views(ops@);
    if ops.len() == 2 {
        proof {
            assert(opsm[0] == ops@[0]@);
            assert(opsm[1] == ops@[1]@);
        }
        match (&ops[0], &ops[1]) {
            (Operand::Register(rs2), Operand::Memory { offset, reg }) => {
                let off: u32 = match offset {
                    MemoryOffset::Immediate(v) => *v as u32,
                    MemoryOffset::Label(name) => {
                        match sym_table.get_address(name.as_str()) {
                            Some(a) => a,
                            None => {
                                return Err(unknown_label_message(name.as_str()));
                            },
                        }
                    },
                };
                let imm = off & 0xFFF;
                return Ok(
                    (((imm >> 5) & 0x7F) << 25) | ((*rs2 as u32) << 20) | ((*reg as u32) << 15) | (
                    (funct3 as u32) << 12) | ((imm & 0x1F) << 7) | (opcode as u32),
                );
            },
            _ => {},
        }
    }
    Err(String::from_str("Invalid operands for S-type instruction: expected reg, offset(reg)"))
}

/// Encode one B-type (branch) instruction; a label becomes a displacement
/// relative to the instruction's own address.
fn encode_b_type(
    opcode: u8,
    funct3: u8,
    ops: &[Operand],
    sym_table: &SymbolTable,
    current_pc: u32,
) -> (r: Result<u32, String>)
    ensures
        (match spec_encode_b(
            opcode as u32,
            funct3 as u32,
            ops_views(ops@),
            sym_table.entries(),
            current_pc,
        ) {
            Ok(w) => r matches Ok(x) && x == w,
            Err(m) => r matches Err(e) && e@ == m,
        }),
{
    let ghost opsm = ops_views(ops@);
    if ops.len() == 3 {
        proof {
            assert(opsm[0] == ops@[0]@);
            assert(opsm[1] == ops@[1]@);
            assert(opsm[2] == ops@[2]@);
        }
        match (&ops[0], &ops[1]) {
            (Operand::Register(rs1), Operand::Register(rs2)) => {
                let off: u32 = match &ops[2] {
                    Operand::Immediate(v) => *v as u32,
                    Operand::Label(name) => {
                        match sym_table.get_address(name.as_str()) {
                            Some(a) => a.wrapping_sub(current_pc),
                            None => {
                                return Err(unknown_label_message(name.as_str()));
                            },
                        }
                    },
                    _ => {
                        return Err(
                            String::from_str(
                                "Invalid operands for B-type instruction: expected register, register, immediate",
                            ),
                        );
                    },
                };
                return Ok(
                    (((off >> 12) & 0x1) << 31) | (((off >> 5) & 0x3F) << 25) | ((*rs2 as u32)
                        << 20) | ((*rs1 as u32) << 15) | ((funct3 as u32) << 12) | (((off >> 1)
                        & 0xF) << 8) | (((off >> 11) & 0x1) << 7) | (opcode as u32),
                );
            },
            _ => {},
        }
    }
    Err(
        String::from_str(
            "Invalid operands for B-type instruction: expected register, register, immediate",
        ),
    )
}

/// Encode one J-type (`jal`) instruction; a label becomes a displacement
/// relative to the instruction's own address.
fn encode_j_type(opcode: u8, ops: &[Operand], sym_table: &SymbolTable, current_pc: u32) -> (r:
    Result<u32, String>)
    ensures
        (match spec_encode_j(opcode as u32, ops_views(ops@), sym_table.entries(), current_pc) {
            Ok(w) => r matches Ok(x) && x == w,
            Err(m) => r matches Err(e) && e@ == m,
        }),
{
    let ghost opsm = ops_views(ops@);
    if ops.len() == 2 {
        proof {
            assert(opsm[0] == ops@[0]@);
            assert(opsm[1] == ops@[1]@);
        }
        match &ops[0] {
            Operand::Register(rd) => {
                let off: u32 = match &ops[1] {
                    Operand::Immediate(v) => *v as u32,
                    Operand::Label(name) => {
                        match sym_table.get_address(name.as_str()) {
                            Some(a) => a.wrapping_sub(current_pc),
                            None => {
                                return Err(unknown_label_message(name.as_str()));
                            },
                        }
                    },
                    _ => {
                        return Err(
                            String::from_str(
                                "Invalid operands for J-type instruction: expected register, immediate",
                            ),
                        );
                    },
                };
                return Ok(
                    (((off >> 20) & 0x1) << 31) | (((off >> 1) & 0x3FF) << 21) | (((off >> 11)
                        & 0x1) << 20) | (((off >> 12) & 0xFF) << 12) | ((*rd as u32) << 7) | (
                    opcode as u32),
                );
            },
            _ => {},
        }
    }
    Err(String::from_str("Invalid operands for J-type instruction: expected register, immediate"))
}

/// Encode one U-type (`lui`/`auipc`) instruction.
fn encode_u_type(opcode: u8, ops: &[Operand]) -> (r: Result<u32, String>)
    ensures
        (match spec_encode_u(opcode as u32, ops_views(ops@)) {
            Ok(w) => r matches Ok(x) && x == w,
            Err(m) => r matches Err(e) && e@ == m,
        }),
{
    let ghost opsm = ops_views(ops@);
    if ops.len() == 2 {
        proof {
            assert(opsm[0] == ops@[0]@);
            assert(opsm[1] == ops@[1]@);
        }
        match (&ops[0], &ops[1]) {
            (Operand::Register(rd), Operand::Immediate(imm)) => {
                return Ok(
                    (((*imm as u32) & 0xFFFFF) << 12) | ((*rd as u32) << 7) | (opcode as u32),
                );
            },
            _ => {},
        }
    }
    Err(String::from_str("Invalid operands for U-type instruction: expected register, immediate"))
}

/// Encode one instruction to its 32-bit machine word, dispatching on the
/// mnemonic; an unrecognized mnemonic is an error.
fn encode_instruction(
    name: &str,
    ops: &[Operand],
    sym_table: &SymbolTable,
    current_pc: u32,
) -> (r: Result<u32, String>)
    ensures
        (match spec_encode_instruction(
            name@,
            ops_views(ops@),
            sym_table.entries(),
            current_pc,
        ) {
            Ok(w) => r matches Ok(x) && x == w,
            Err(m) => r matches Err(e) && e@ == m,
        }),
{
    if str_eq(name, "add") {
        encode_r_type(0x33, 0x0, 0x00, ops)
    } else if str_eq(name, "sub") {
        encode_r_type(0x33, 0x0, 0x20, ops)
    } else if str_eq(name, "sll") {
        encode_r_type(0x33, 0x1, 0x00, ops)
    } else if str_eq(name, "slt") {
        encode_r_type(0x33, 0x2, 0x00, ops)
    } else if str_eq(name, "sltu") {
        encode_r_type(0x33, 0x3, 0x00, ops)
    } else if str_eq(name, "xor") {
        encode_r_type(0x33, 0x4, 0x00, ops)
    } else if str_eq(name, "srl") {
        encode_r_type(0x33, 0x5, 0x00, ops)
    } else if str_eq(name, "sra") {
        encode_r_type(0x33, 0x5, 0x20, ops)
    } else if str_eq(name, "or") {
        encode_r_type(0x33, 0x6, 0x00, ops)
    } else if str_eq(name, "and") {
        encode_r_type(0x33, 0x7, 0x00, ops)
    } else if str_eq(name, "addi") {
        encode_i_type(0x13, 0x0, ops)
    } else if str_eq(name, "slti") {
        encode_i_type(0x13, 0x2, ops)
    } else if str_eq(name, "sltiu") {
        encode_i_type(0x13, 0x3, ops)
    } else if str_eq(name, "xori") {
        encode_i_type(0x13, 0x4, ops)
    } else if str_eq(name, "ori") {
        encode_i_type(0x13, 0x6, ops)
    } else if str_eq(name, "andi") {
        encode_i_type(0x13, 0x7, ops)
    } else if str_eq(name, "slli") {
        encode_i_shift(0x13, 0x1, 0x00, ops)
    } else if str_eq(name, "srli") {
        encode_i_shift(0x13, 0x5, 0x00, ops)
    } else if str_eq(name, "srai") {
        encode_i_shift(0x13, 0x5, 0x20, ops)
    } else if str_eq(name, "lb") {
        encode_i_type(0x03, 0x0, ops)
    } else if str_eq(name, "lh") {
        encode_i_type(0x03, 0x1, ops)
    } else if str_eq(name, "lw") {
        encode_i_type(0x03, 0x2, ops)
    } else if str_eq(name, "lbu") {
        encode_i_type(0x03, 0x4, ops)
    } else if str_eq(name, "lhu") {
        encode_i_type(0x03, 0x5, ops)
    } else if str_eq(name, "jalr") {
        encode_i_type(0x67, 0x0, ops)
    } else if str_eq(name, "sb") {
        encode_s_type(0x23, 0x0, ops, sym_table)
    } else if str_eq(name, "sh") {
        encode_s_type(0x23, 0x1, ops, sym_table)
    } else if str_eq(name, "sw") {
        encode_s_type(0x23, 0x2, ops, sym_table)
    } else if str_eq(name, "beq") {
        encode_b_type(0x63, 0x0, ops, sym_table, current_pc)
    } else if str_eq(name, "bne") {
        encode_b_type(0x63, 0x1, ops, sym_table, current_pc)
    } else if str_eq(name, "blt") {
        encode_b_type(0x63, 0x4, ops, sym_table, current_pc)
    } else if str_eq(name, "bge") {
        encode_b_type(0x63, 0x5, ops, sym_table, current_pc)
    } else if str_eq(name, "bltu") {
        encode_b_type(0x63, 0x6, ops, sym_table, current_pc)
    } else if str_eq(name, "bgeu") {
        encode_b_type(0x63, 0x7, ops, sym_table, current_pc)
    } else if str_eq(name, "lui") {
        encode_u_type(0x37, ops)
    } else if str_eq(name, "auipc") {
        encode_u_type(0x17, ops)
    } else if str_eq(name, "jal") {
        encode_j_type(0x6F, ops, sym_table, current_pc)
    } else if str_eq(name, "ecall") {
        Ok(0x00000073)
    } else if str_eq(name, "ebreak") {
        Ok(0x00100073)
    } else if str_eq(name, "fence") {
        Ok(0x0000000F)
    } else {
        let mut m = String::from_str("Unsupported instruction '");
        m.append(name);
        m.append("'");
        Err(m)
    }
}

/// Append the four little-endian bytes of `w`.
fn push_word_le(dst: &mut Vec<u8>, w: u32)
    ensures
        final(dst)@ == old(dst)@ + le4(w),
{
    dst.push((w % 0x100) as u8);
    dst.push(((w / 0x100) % 0x100) as u8);
    dst.push(((w / 0x1_0000) % 0x100) as u8);
    dst.push((w / 0x100_0000) as u8);
    proof {
        assert(dst@ =~= old(dst)@ + le4(w));
    }
}

/// Append the two little-endian bytes of the low half of `w`.
fn push_half_le(dst: &mut Vec<u8>, w: u32)
    ensures
        final(dst)@ == old(dst)@ + le2(w),
{
    dst.push((w % 0x100) as u8);
    dst.push(((w / 0x100) % 0x100) as u8);
    proof {
        assert(dst@ =~= old(dst)@ + le2(w));
    }
}

/// Append `n` zero bytes.
fn push_zeros(dst: &mut Vec<u8>, n: u32)
    ensures
        final(dst)@ == old(dst)@ + Seq::new(n as nat, |k: int| 0u8),
{
    let mut k: u32 = 0;
    while k < n
        invariant
            k <= n,
            dst@ =~= old(dst)@ + Seq::new(k as nat, |j: int| 0u8),
        decreases n - k,
    {
        dst.push(0);
        proof {
            assert(Seq::new((k + 1) as nat, |j: int| 0u8) =~= Seq::new(k as nat, |j: int| 0u8).push(
                0u8,
            ));
        }
        k = k + 1;
    }
    proof {
        assert(dst@ =~= old(dst)@ + Seq::new(n as nat, |j: int| 0u8));
    }
}

/// Append the bytes of `src`.
fn append_bytes(dst: &mut Vec<u8>, src: &Vec<u8>)
    ensures
        final(dst)@ == old(dst)@ + src@,
{
    let mut j: usize = 0;
    while j < src.len()
        invariant
            j <= src@.len(),
            dst@ =~= old(dst)@ + src@.subrange(0, j as int),
        decreases src@.len() - j,
    {
        dst.push(src[j]);
        proof {
            assert(src@.subrange(0, (j + 1) as int) =~= src@.subrange(0, j as int).push(
                src@[j as int],
            ));
        }
        j = j + 1;
    }
    proof {
        assert(src@.subrange(0, src@.len() as int) =~= src@);
        assert(dst@ =~= old(dst)@ + src@);
    }
}

/// Append the bytes of the characters of `s`, each truncated to one byte,
/// then a zero byte when `nul` holds.
fn push_string_bytes(dst: &mut Vec<u8>, s: &String, nul: bool)
    ensures
        final(dst)@ == old(dst)@ + bytes_of_chars(s@) + (if nul {
            seq![0u8]
        } else {
            Seq::<u8>::empty()
        }),
{
    let n = s.as_str().unicode_len();
    let mut k: usize = 0;
    while k < n
        invariant
            n == s@.len(),
            k <= n,
            dst@ =~= old(dst)@ + bytes_of_chars(s@.subrange(0, k as int)),
        decreases n - k,
    {
        let c = s.as_str().get_char(k);
        dst.push(c as u8);
        proof {
            assert(s@.subrange(0, (k + 1) as int) =~= s@.subrange(0, k as int).push(
                s@[k as int],
            ));
            assert(bytes_of_chars(s@.subrange(0, (k + 1) as int)) =~= bytes_of_chars(
                s@.subrange(0, k as int),
            ).push(s@[k as int] as u8));
        }
        k = k + 1;
    }
    proof {
        assert(s@.subrange(0, s@.len() as int) =~= s@);
    }
    if nul {
        dst.push(0);
    }
    proof {
        assert(dst@ =~= old(dst)@ + bytes_of_chars(s@) + (if nul {
            seq![0u8]
        } else {
            Seq::<u8>::empty()
        }));
    }
}

/// The bytes a data directive emits: little-endian immediates for `.word`,
/// `.half` and `.byte`, raw characters for the string directives (with a
/// terminating zero for `.asciz` and `.string`), and a zero fill for
/// `.space`; anything else is unsupported.
#[verifier::loop_isolation(false)]
fn emit_data_bytes(name: &str, ops: &[Operand]) -> (r: Result<Vec<u8>, String>)
    ensures
        (match spec_emit_data(name@, ops_views(ops@)) {
            Ok(bs) => r matches Ok(v) && v@ == bs,
            Err(m) => r matches Err(e) && e@ == m,
        }),
{
    let ghost opsm = ops_views(ops@);
    if str_eq(name, ".word") || str_eq(name, ".half") || str_eq(name, ".byte") {
        let width: usize = if str_eq(name, ".word") {
            4
        } else if str_eq(name, ".half") {
            2
        } else {
            1
        };
        let ghost msg: Seq<char> = if name@ == ".word"@ {
            "Invalid operand for .word directive: expected immediate value"@
        } else if name@ == ".half"@ {
            "Invalid operand for .half directive: expected immediate value"@
        } else {
            "Invalid operand for .byte directive: expected immediate value"@
        };
        if ops.len() == 0 {
            if width == 4 {
                return Err(
                    String::from_str(
                        "Invalid operand for .word directive: expected immediate value",
                    ),
                );
            } else if width == 2 {
                return Err(
                    String::from_str(
                        "Invalid operand for .half directive: expected immediate value",
                    ),
                );
            } else {
                return Err(
                    String::from_str(
                        "Invalid operand for .byte directive: expected immediate value",
                    ),
                );
            }
        }
        let mut out: Vec<u8> = Vec::new();
        let mut i: usize = 0;
        while i < ops.len()
            invariant
                i <= ops@.len(),
                (match spec_imm_data(opsm, i as int, width as int, msg) {
                    Ok(rest) => spec_imm_data(opsm, 0, width as int, msg) == Ok::<
                        Seq<u8>,
                        Seq<char>,
                    >(out@ + rest),
                    Err(e) => spec_imm_data(opsm, 0, width as int, msg) == Err::<
                        Seq<u8>,
                        Seq<char>,
                    >(e),
                }),
            decreases ops@.len() - i,
        {
            proof {
                assert(opsm[i as int] == ops@[i as int]@);
            }
            match &ops[i] {
                Operand::Immediate(v) => {
                    let ghost before = out@;
                    let ghost piece: Seq<u8> = if width == 4 {
                        le4(*v as u32)
                    } else if width == 2 {
                        le2(*v as u32)
                    } else {
                        seq![((*v as u32) % 0x100) as u8]
                    };
                    if width == 4 {
                        push_word_le(&mut out, *v as u32);
                    } else if width == 2 {
                        push_half_le(&mut out, *v as u32);
                    } else {
                        out.push(((*v as u32) % 0x100) as u8);
                        proof {
                            assert(out@ =~= before + piece);
                        }
                    }
                    proof {
                        if spec_imm_data(opsm, (i + 1) as int, width as int, msg) is Ok {
                            let rest = spec_imm_data(opsm, (i + 1) as int, width as int, msg)
                                ->Ok_0;
                            assert(before + (piece + rest) =~= (before + piece) + rest);
                        }
                    }
                    i = i + 1;
                },
                _ => {
                    if width == 4 {
                        return Err(
                            String::from_str(
                                "Invalid operand for .word directive: expected immediate value",
                            ),
                        );
                    } else if width == 2 {
                        return Err(
                            String::from_str(
                                "Invalid operand for .half directive: expected immediate value",
                            ),
                        );
                    } else {
                        return Err(
                            String::from_str(
                                "Invalid operand for .byte directive: expected immediate value",
                            ),
                        );
                    }
                },
            }
        }
        proof {
            assert(out@ + Seq::<u8>::empty() =~= out@);
        }
        Ok(out)
    } else if str_eq(name, ".ascii") || str_eq(name, ".asciz") || str_eq(name, ".string") {
        let nul = !str_eq(name, ".ascii");
        let mut out: Vec<u8> = Vec::new();
        let mut i: usize = 0;
        while i < ops.len()
            invariant
                i <= ops@.len(),
                (match spec_string_data(opsm, i as int, nul) {
                    Ok(rest) => spec_string_data(opsm, 0, nul) == Ok::<Seq<u8>, Seq<char>>(
                        out@ + rest,
                    ),
                    Err(e) => spec_string_data(opsm, 0, nul) == Err::<Seq<u8>, Seq<char>>(e),
                }),
            decreases ops@.len() - i,
        {
            proof {
                assert(opsm[i as int] == ops@[i as int]@);
            }
            match &ops[i] {
                Operand::StringLiteral(sv) => {
                    let ghost before = out@;
                    let ghost piece = bytes_of_chars(sv@) + (if nul {
                        seq![0u8]
                    } else {
                        Seq::<u8>::empty()
                    });
                    push_string_bytes(&mut out, sv, nul);
                    proof {
                        assert(out@ =~= before + piece);
                        if spec_string_data(opsm, (i + 1) as int, nul) is Ok {
                            let rest = spec_string_data(opsm, (i + 1) as int, nul)->Ok_0;
                            assert(before + (piece + rest) =~= (before + piece) + rest);
                        }
                    }
                    i = i + 1;
                },
                _ => {
                    return Err(String::from_str("Directive requires a string literal"));
                },
            }
        }
        proof {
            assert(out@ + Seq::<u8>::empty() =~= out@);
        }
        Ok(out)
    } else if str_eq(name, ".space") {
        proof {
            if ops@.len() >= 1 {
                assert(opsm[0] == ops@[0]@);
            }
        }
        if ops.len() >= 1 {
            match &ops[0] {
                Operand::Immediate(v) => {
                    let mut out: Vec<u8> = Vec::new();
                    push_zeros(&mut out, *v as u32);
                    proof {
                        assert(out@ =~= Seq::new(((*v as u32) as nat), |k: int| 0u8));
                    }
                    return Ok(out);
                },
                _ => {
                    return Err(String::from_str("Directive .space requires an immediate value"));
                },
            }
        }
        Err(String::from_str("Directive .space requires an immediate value"))
    } else {
        let mut m = String::from_str("Unsupported directive '");
        m.append(name);
        m.append("'");
        Err(m)
    }
}

/// The assembler: the machine-code bytes, the data bytes, and the debug
/// map accumulated by the encoding pass.
pub struct Assembler {
    pub text_bin: Vec<u8>,
    pub data_bin: Vec<u8>,
    pub debug_info: DebugInfo,
}

impl Assembler {
    /// A fresh assembler with empty outputs.
    pub fn new() -> (r: Assembler)
        ensures
            r.text_bin@ == Seq::<u8>::empty(),
            r.data_bin@ == Seq::<u8>::empty(),
            dbg_views(r.debug_info.address_to_source@) == Seq::<(u32, SourceMappingModel)>::empty(),
    {
        let r = Assembler {
            text_bin: Vec::new(),
            data_bin: Vec::new(),
            debug_info: DebugInfo { address_to_source: Vec::new() },
        };
        proof {
            assert(dbg_views(r.debug_info.address_to_source@) =~= Seq::<
                (u32, SourceMappingModel),
            >::empty());
        }
        r
    }

    /// Run the encoding pass over `statements`, resolving labels against
    /// `sym_table`: machine words are appended to the text output, data
    /// bytes to the data output, and every statement's address is recorded
    /// in the debug map. Errors are collected per statement; the pass
    /// fails only if at least one statement failed.
    #[verifier::loop_isolation(false)]
    #[verifier::rlimit(60)]
    pub fn assemble(&mut self, statements: &[Statement], sym_table: &SymbolTable) -> (r: Result<
        (),
        Vec<AssemblerError>,
    >)
        ensures
            ({
                let fin = spec_assemble(
                    stmts_views(statements@),
                    0,
                    (AsmState {
                        text: old(self).text_bin@,
                        data: old(self).data_bin@,
                        dbg: dbg_views(old(self).debug_info.address_to_source@),
                        errors: Seq::empty(),
                        cur_pc: crate::config::TEXT_BASE,
                        data_pc: crate::config::DATA_BASE,
                        in_text: true,
                    }),
                    sym_table.entries(),
                );
                final(self).text_bin@ == fin.text && final(self).data_bin@ == fin.data
                    && dbg_views(final(self).debug_info.address_to_source@) == fin.dbg && (
                fin.errors.len() == 0 ==> r is Ok) && (fin.errors.len() != 0 ==> (r matches Err(es)
                    && errs_views(es@) == fin.errors))
            }),
    {
        let ghost stmts = stmts_views(statements@);
        let ghost entries = sym_table.entries();
        let ghost init = AsmState {
            text: self.text_bin@,
            data: self.data_bin@,
            dbg: dbg_views(self.debug_info.address_to_source@),
            errors: Seq::empty(),
            cur_pc: crate::config::TEXT_BASE,
            data_pc: crate::config::DATA_BASE,
            in_text: true,
        };
        let mut current_pc: u32 = crate::config::TEXT_BASE;
        let mut data_pc: u32 = crate::config::DATA_BASE;
        let mut in_text: bool = true;
        let mut errors: Vec<AssemblerError> = Vec::new();
        proof {
            assert(errs_views(errors@) =~= Seq::<AssemblerErrorModel>::empty());
        }
        let mut i: usize = 0;
        while i < statements.len()
            invariant
                i <= statements@.len(),
                spec_assemble(stmts, 0, init, entries) == spec_assemble(
                    stmts,
                    i as int,
                    (AsmState {
                        text: self.text_bin@,
                        data: self.data_bin@,
                        dbg: dbg_views(self.debug_info.address_to_source@),
                        errors: errs_views(errors@),
                        cur_pc: current_pc,
                        data_pc: data_pc,
                        in_text: in_text,
                    }),
                    entries,
                ),
            decreases statements@.len() - i,
        {
            let ghost cur = AsmState {
                text: self.text_bin@,
                data: self.data_bin@,
                dbg: dbg_views(self.debug_info.address_to_source@),
                errors: errs_views(errors@),
                cur_pc: current_pc,
                data_pc: data_pc,
                in_text: in_text,
            };
            let ghost stm = stmts[i as int];
            proof {
                assert(stm == statements@[i as int]@);
            }
            let stmt = &statements[i];
            let addr = if in_text {
                current_pc
            } else {
                data_pc
            };
            let section = if in_text {
                String::from_str(".text")
            } else {
                String::from_str(".data")
            };
            let mapping = SourceMapping { raw_text: statement_text(stmt), line: stmt.line, section
            };
            let ghost dbg_before = dbg_views(self.debug_info.address_to_source@);
            let ghost mm = mapping@;
            self.debug_info.address_to_source.push((addr, mapping));
            proof {
                assert(dbg_views(self.debug_info.address_to_source@) =~= dbg_before.push(
                    (addr, mm),
                ));
            }
            match &stmt.kind {
                StatementKind::Instruction(name, ops) => {
                    match encode_instruction(name.as_str(), ops.as_slice(), sym_table, current_pc) {
                        Ok(word) => {
                            push_word_le(&mut self.text_bin, word);
                            current_pc = current_pc.wrapping_add(4);
                        },
                        Err(msg) => {
                            let ghost errs_before = errs_views(errors@);
                            let e = AssemblerError { line: stmt.line, message: msg };
                            let ghost em = e@;
                            errors.push(e);
                            proof {
                                assert(errs_views(errors@) =~= errs_before.push(em));
                            }
                        },
                    }
                },
                StatementKind::Directive(name, ops) => {
                    if str_eq(name.as_str(), ".text") {
                        in_text = true;
                    } else if str_eq(name.as_str(), ".data") {
                        in_text = false;
                    } else if str_eq(name.as_str(), ".align") {
                        match crate::symbols::SymbolTable::calculate_directive_size(
                            sym_table,
                            name.as_str(),
                            ops.as_slice(),
                            data_pc,
                        ) {
                            Ok(sz) => {
                                push_zeros(&mut self.data_bin, sz);
                                data_pc = data_pc.wrapping_add(sz);
                            },
                            Err(msg) => {
                                let ghost errs_before = errs_views(errors@);
                                let e = AssemblerError { line: stmt.line, message: msg };
                                let ghost em = e@;
                                errors.push(e);
                                proof {
                                    assert(errs_views(errors@) =~= errs_before.push(em));
                                }
                            },
                        }
                    } else {
                        match emit_data_bytes(name.as_str(), ops.as_slice()) {
                            Ok(bytes) => {
                                let blen: u64 = (bytes.len() as u64) % 0x1_0000_0000;
                                append_bytes(&mut self.data_bin, &bytes);
                                data_pc = data_pc.wrapping_add(blen as u32);
                            },
                            Err(msg) => {
                                let ghost errs_before = errs_views(errors@);
                                let e = AssemblerError { line: stmt.line, message: msg };
                                let ghost em = e@;
                                errors.push(e);
                                proof {
                                    assert(errs_views(errors@) =~= errs_before.push(em));
                                }
                            },
                        }
                    }
                },
                StatementKind::Label(name) => {},
            }
            i = i + 1;
            proof {
                assert(spec_assemble(stmts, i - 1, cur, entries) == spec_assemble(
                    stmts,
                    i as int,
                    spec_assemble_step(stm, cur, entries),
                    entries,
                ));
            }
        }
        if errors.len() == 0 {
            Ok(())
        } else {
            Err(errors)
        }
    }
}

/// The description of a lexical rejection, as the error list reports it.
pub open spec fn lex_reason_text(r: crate::lexer::LexReason) -> Seq<char> {
    match r {
        crate::lexer::LexReason::UnexpectedChar => "Lex error: unexpected character"@,
        crate::lexer::LexReason::UnterminatedString => "Lex error: unterminated string literal"@,
        crate::lexer::LexReason::UnknownEscape => "Lex error: unknown escape sequence"@,
        crate::lexer::LexReason::NumericOverflow => "Lex error: numeric literal out of range"@,
    }
}

/// The whole compilation of a source text, over its UTF-8 bytes: the text
/// bytes, data bytes and debug map, or the list of errors. A lexical,
/// parse or symbol error ends the compilation with that single error;
/// encoding errors are collected across all statements.
pub open spec fn spec_compile(bytes: Seq<u8>) -> Result<
    (Seq<u8>, Seq<u8>, Seq<(u32, SourceMappingModel)>),
    Seq<AssemblerErrorModel>,
> {
    match crate::lexer::spec_tokenize(bytes) {
        Err(e) => Err(
            seq![AssemblerErrorModel { line: e.line, message: lex_reason_text(e.reason) }],
        ),
        Ok(toks) => match crate::parser::spec_parse(toks, 0) {
            Err(pe) => Err(seq![AssemblerErrorModel { line: pe.line, message: pe.message }]),
            Ok(stmts) => match crate::symbols::spec_build(
                stmts,
                0,
                (crate::symbols::BuildState {
                    entries: Seq::empty(),
                    in_text: true,
                    text_off: 0,
                    data_off: 0,
                }),
                crate::config::TEXT_BASE,
                crate::config::DATA_BASE,
            ) {
                Err(me) => Err(seq![AssemblerErrorModel { line: 0, message: me.0 }]),
                Ok(bst) => {
                    let fin = spec_assemble(
                        stmts,
                        0,
                        (AsmState {
                            text: Seq::empty(),
                            data: Seq::empty(),
                            dbg: Seq::empty(),
                            errors: Seq::empty(),
                            cur_pc: crate::config::TEXT_BASE,
                            data_pc: crate::config::DATA_BASE,
                            in_text: true,
                        }),
                        bst.entries,
                    );
                    if fin.errors.len() == 0 {
                        Ok((fin.text, fin.data, fin.dbg))
                    } else {
                        Err(fin.errors)
                    }
                },
            },
        },
    }
}

/// Compile a source string: lex, parse, build the symbol table and encode,
/// yielding the text bytes, the data bytes and the debug map, or the list
/// of errors with their source lines.
pub fn compile(source: &str) -> (r: Result<(Vec<u8>, Vec<u8>, DebugInfo), Vec<AssemblerError>>)
    requires
        source.spec_bytes().len() < usize::MAX,
    ensures
        (match spec_compile(source.spec_bytes()) {
            Ok(t) => r matches Ok(o) && o.0@ == t.0 && o.1@ == t.1 && dbg_views(
                o.2.address_to_source@,
            ) == t.2,
            Err(es) => r matches Err(v) && errs_views(v@) == es,
        }),
{
    let tokens = match crate::lexer::tokenize(source) {
        Ok(ts) => ts,
        Err(le) => {
            let message = match le.reason {
                crate::lexer::LexReason::UnexpectedChar => String::from_str(
                    "Lex error: unexpected character",
                ),
                crate::lexer::LexReason::UnterminatedString => String::from_str(
                    "Lex error: unterminated string literal",
                ),
                crate::lexer::LexReason::UnknownEscape => String::from_str(
                    "Lex error: unknown escape sequence",
                ),
                crate::lexer::LexReason::NumericOverflow => String::from_str(
                    "Lex error: numeric literal out of range",
                ),
            };
            let mut es: Vec<AssemblerError> = Vec::new();
            es.push(AssemblerError { line: le.line, message });
            proof {
                assert(errs_views(es@) =~= seq![es@[0]@]);
            }
            return Err(es);
        },
    };
    let mut parser = crate::parser::Parser::new(tokens);
    let statements = match parser.parse() {
        Ok(sts) => sts,
        Err(pe) => {
            let mut es: Vec<AssemblerError> = Vec::new();
            es.push(AssemblerError { line: pe.line, message: pe.message });
            proof {
                assert(errs_views(es@) =~= seq![es@[0]@]);
            }
            return Err(es);
        },
    };
    let mut sym_table = SymbolTable::new(crate::config::TEXT_BASE, crate::config::DATA_BASE);
    match sym_table.build(statements.as_slice()) {
        Ok(_) => {},
        Err(m) => {
            let mut es: Vec<AssemblerError> = Vec::new();
            es.push(AssemblerError { line: 0, message: m });
            proof {
                assert(errs_views(es@) =~= seq![es@[0]@]);
            }
            return Err(es);
        },
    }
    let mut assembler = Assembler::new();
    match assembler.assemble(statements.as_slice(), &sym_table) {
        Ok(_) => {},
        Err(es) => {
            return Err(es);
        },
    }
    let Assembler { text_bin, data_bin, debug_info } = assembler;
    Ok((text_bin, data_bin, debug_info))
}

/// An R-type word packed from its fields.
pub open spec fn pack_r(opcode: u32, funct3: u32, funct7: u32, rd: u32, rs1: u32, rs2: u32)
    -> u32 {
    (funct7 << 25) | (rs2 << 20) | (rs1 << 15) | (funct3 << 12) | (rd << 7) | opcode
}

/// An I-type word packed from its fields.
pub open spec fn pack_i(opcode: u32, funct3: u32, rd: u32, rs1: u32, imm: i32) -> u32 {
    ((imm as u32) << 20) | (rs1 << 15) | (funct3 << 12) | (rd << 7) | opcode
}

/// A shift-immediate word packed from its fields.
pub open spec fn pack_shift(opcode: u32, funct3: u32, funct7: u32, rd: u32, rs1: u32, shamt: i32)
    -> u32 {
    (funct7 << 25) | ((shamt as u32) << 20) | (rs1 << 15) | (funct3 << 12) | (rd << 7) | opcode
}

proof fn bv_r_fields(funct3: u32, funct7: u32, rd: u8, rs1: u8, rs2: u8)
    by (bit_vector)
    requires
        rd < 32,
        rs1 < 32,
        rs2 < 32,
        funct3 < 8,
        funct7 < 0x80,
    ensures
        pack_r(0x33, funct3, funct7, rd as u32, rs1 as u32, rs2 as u32) & 0x7F == 0x33,
        (pack_r(0x33, funct3, funct7, rd as u32, rs1 as u32, rs2 as u32) >> 7) & 0x1F == rd,
        (pack_r(0x33, funct3, funct7, rd as u32, rs1 as u32, rs2 as u32) >> 15) & 0x1F == rs1,
        (pack_r(0x33, funct3, funct7, rd as u32, rs1 as u32, rs2 as u32) >> 20) & 0x1F == rs2,
        (pack_r(0x33, funct3, funct7, rd as u32, rs1 as u32, rs2 as u32) >> 12) & 0x7 == funct3,
        pack_r(0x33, funct3, funct7, rd as u32, rs1 as u32, rs2 as u32) >> 25 == funct7,
{
}

/// The R-type instruction selected by a `funct3`/`funct7` pair of the
/// RV32I table.
pub open spec fn r_inst(funct3: u32, funct7: u32, rd: usize, rs1: usize, rs2: usize)
    -> Instruction {
    if funct3 == 0x0 && funct7 == 0x00 {
        Instruction::Add { rd, rs1, rs2 }
    } else if funct3 == 0x0 && funct7 == 0x20 {
        Instruction::Sub { rd, rs1, rs2 }
    } else if funct3 == 0x4 && funct7 == 0x00 {
        Instruction::Xor { rd, rs1, rs2 }
    } else if funct3 == 0x6 && funct7 == 0x00 {
        Instruction::Or { rd, rs1, rs2 }
    } else if funct3 == 0x7 && funct7 == 0x00 {
        Instruction::And { rd, rs1, rs2 }
    } else if funct3 == 0x1 && funct7 == 0x00 {
        Instruction::Sll { rd, rs1, rs2 }
    } else if funct3 == 0x5 && funct7 == 0x00 {
        Instruction::Srl { rd, rs1, rs2 }
    } else if funct3 == 0x5 && funct7 == 0x20 {
        Instruction::Sra { rd, rs1, rs2 }
    } else if funct3 == 0x2 && funct7 == 0x00 {
        Instruction::Slt { rd, rs1, rs2 }
    } else {
        Instruction::Sltu { rd, rs1, rs2 }
    }
}

/// Encode/decode round trip for every R-type instruction: the decoder
/// recovers exactly the opcode, `funct3`, `funct7` and register fields the
/// encoder consumed.
pub proof fn lemma_r_roundtrip(funct3: u32, funct7: u32, rd: u8, rs1: u8, rs2: u8)
    requires
        rd < 32,
        rs1 < 32,
        rs2 < 32,
        (funct3 == 0x0 && funct7 == 0x00) || (funct3 == 0x0 && funct7 == 0x20) || (funct3 == 0x1
            && funct7 == 0x00) || (funct3 == 0x2 && funct7 == 0x00) || (funct3 == 0x3 && funct7
            == 0x00) || (funct3 == 0x4 && funct7 == 0x00) || (funct3 == 0x5 && funct7 == 0x00) || (
        funct3 == 0x5 && funct7 == 0x20) || (funct3 == 0x6 && funct7 == 0x00) || (funct3 == 0x7
            && funct7 == 0x00),
    ensures
        spec_encode_r(
            0x33,
            funct3,
            funct7,
            seq![
                OperandModel::Register(rd),
                OperandModel::Register(rs1),
                OperandModel::Register(rs2),
            ],
        ) == Ok::<u32, Seq<char>>(pack_r(0x33, funct3, funct7, rd as u32, rs1 as u32, rs2 as u32)),
        crate::processor::spec_decode(pack_r(0x33, funct3, funct7, rd as u32, rs1 as u32, rs2 as u32))
            == Ok::<Instruction, crate::processor::StepError>(
            r_inst(funct3, funct7, rd as usize, rs1 as usize, rs2 as usize),
        ),
{
    bv_r_fields(funct3, funct7, rd, rs1, rs2);
}

proof fn bv_i_fields(opcode: u32, funct3: u32, rd: u8, rs1: u8, imm: i32)
    by (bit_vector)
    requires
        rd < 32,
        rs1 < 32,
        funct3 < 8,
        opcode < 0x80,
        -2048 <= imm < 2048,
    ensures
        pack_i(opcode, funct3, rd as u32, rs1 as u32, imm) & 0x7F == opcode,
        (pack_i(opcode, funct3, rd as u32, rs1 as u32, imm) >> 7) & 0x1F == rd,
        (pack_i(opcode, funct3, rd as u32, rs1 as u32, imm) >> 15) & 0x1F == rs1,
        (pack_i(opcode, funct3, rd as u32, rs1 as u32, imm) >> 12) & 0x7 == funct3,
        imm >= 0 ==> pack_i(opcode, funct3, rd as u32, rs1 as u32, imm) >> 20 == imm,
        imm < 0 ==> pack_i(opcode, funct3, rd as u32, rs1 as u32, imm) >> 20 == imm + 0x1000,
{
}

/// The I-type ALU instruction selected by a `funct3` of the RV32I table.
pub open spec fn i_alu_inst(funct3: u32, rd: usize, rs1: usize, imm: i32) -> Instruction {
    if funct3 == 0x0 {
        Instruction::Addi { rd, rs1, imm }
    } else if funct3 == 0x4 {
        Instruction::Xori { rd, rs1, imm }
    } else if funct3 == 0x6 {
        Instruction::Ori { rd, rs1, imm }
    } else if funct3 == 0x7 {
        Instruction::Andi { rd, rs1, imm }
    } else if funct3 == 0x2 {
        Instruction::Slti { rd, rs1, imm }
    } else {
        Instruction::Sltiu { rd, rs1, imm }
    }
}

/// Encode/decode round trip for the I-type ALU instructions: the decoder
/// recovers the registers and the sign-extended 12-bit immediate.
pub proof fn lemma_i_alu_roundtrip(funct3: u32, rd: u8, rs1: u8, imm: i32)
    requires
        rd < 32,
        rs1 < 32,
        -2048 <= imm < 2048,
        funct3 == 0x0 || funct3 == 0x2 || funct3 == 0x3 || funct3 == 0x4 || funct3 == 0x6
            || funct3 == 0x7,
    ensures
        spec_encode_i(
            0x13,
            funct3,
            seq![
                OperandModel::Register(rd),
                OperandModel::Register(rs1),
                OperandModel::Immediate(imm),
            ],
        ) == Ok::<u32, Seq<char>>(pack_i(0x13, funct3, rd as u32, rs1 as u32, imm)),
        crate::processor::spec_decode(pack_i(0x13, funct3, rd as u32, rs1 as u32, imm)) == Ok::<
            Instruction,
            crate::processor::StepError,
        >(i_alu_inst(funct3, rd as usize, rs1 as usize, imm)),
{
    bv_i_fields(0x13, funct3, rd, rs1, imm);
}

/// The load instruction selected by a `funct3` of the RV32I table.
pub open spec fn load_inst(funct3: u32, rd: usize, rs1: usize, imm: i32) -> Instruction {
    if funct3 == 0x0 {
        Instruction::Lb { rd, rs1, imm }
    } else if funct3 == 0x1 {
        Instruction::Lh { rd, rs1, imm }
    } else if funct3 == 0x2 {
        Instruction::Lw { rd, rs1, imm }
    } else if funct3 == 0x4 {
        Instruction::Lbu { rd, rs1, imm }
    } else {
        Instruction::Lhu { rd, rs1, imm }
    }
}

/// Encode/decode round trip for the load instructions.
pub proof fn lemma_load_roundtrip(funct3: u32, rd: u8, rs1: u8, imm: i32)
    requires
        rd < 32,
        rs1 < 32,
        -2048 <= imm < 2048,
        funct3 == 0x0 || funct3 == 0x1 || funct3 == 0x2 || funct3 == 0x4 || funct3 == 0x5,
    ensures
        spec_encode_i(
            0x03,
            funct3,
            seq![
                OperandModel::Register(rd),
                OperandModel::Register(rs1),
                OperandModel::Immediate(imm),
            ],
        ) == Ok::<u32, Seq<char>>(pack_i(0x03, funct3, rd as u32, rs1 as u32, imm)),
        crate::processor::spec_decode(pack_i(0x03, funct3, rd as u32, rs1 as u32, imm)) == Ok::<
            Instruction,
            crate::processor::StepError,
        >(load_inst(funct3, rd as usize, rs1 as usize, imm)),
{
    bv_i_fields(0x03, funct3, rd, rs1, imm);
}

/// Encode/decode round trip for `jalr`.
pub proof fn lemma_jalr_roundtrip(rd: u8, rs1: u8, imm: i32)
    requires
        rd < 32,
        rs1 < 32,
        -2048 <= imm < 2048,
    ensures
        spec_encode_i(
            0x67,
            0x0,
            seq![
                OperandModel::Register(rd),
                OperandModel::Register(rs1),
                OperandModel::Immediate(imm),
            ],
        ) == Ok::<u32, Seq<char>>(pack_i(0x67, 0x0, rd as u32, rs1 as u32, imm)),
        crate::processor::spec_decode(pack_i(0x67, 0x0, rd as u32, rs1 as u32, imm)) == Ok::<
            Instruction,
            crate::processor::StepError,
        >(Instruction::Jalr { rd: rd as usize, rs1: rs1 as usize, imm }),
{
    bv_i_fields(0x67, 0x0, rd, rs1, imm);
}

proof fn bv_shift_fields(funct3: u32, funct7: u32, rd: u8, rs1: u8, shamt: i32)
    by (bit_vector)
    requires
        rd < 32,
        rs1 < 32,
        funct3 < 8,
        funct7 < 0x80,
        0 <= shamt < 32,
    ensures
        pack_shift(0x13, funct3, funct7, rd as u32, rs1 as u32, shamt) & 0x7F == 0x13,
        (pack_shift(0x13, funct3, funct7, rd as u32, rs1 as u32, shamt) >> 7) & 0x1F == rd,
        (pack_shift(0x13, funct3, funct7, rd as u32, rs1 as u32, shamt) >> 15) & 0x1F == rs1,
        (pack_shift(0x13, funct3, funct7, rd as u32, rs1 as u32, shamt) >> 12) & 0x7 == funct3,
        pack_shift(0x13, funct3, funct7, rd as u32, rs1 as u32, shamt) >> 25 == funct7,
        (pack_shift(0x13, funct3, funct7, rd as u32, rs1 as u32, shamt) >> 20) & 0x1F == shamt,
{
}

/// The shift-immediate instruction selected by its `funct3`/`funct7` pair.
pub open spec fn shift_inst(funct3: u32, funct7: u32, rd: usize, rs1: usize, shamt: u32)
    -> Instruction {
    if funct3 == 0x1 {
        Instruction::Slli { rd, rs1, shamt }
    } else if funct7 == 0x00 {
        Instruction::Srli { rd, rs1, shamt }
    } else {
        Instruction::Srai { rd, rs1, shamt }
    }
}

/// Encode/decode round trip for the shift-immediate instructions: the
/// decoder recovers the five-bit shift amount and the `funct7` selector.
pub proof fn lemma_shift_roundtrip(funct3: u32, funct7: u32, rd: u8, rs1: u8, shamt: i32)
    requires
        rd < 32,
        rs1 < 32,
        0 <= shamt < 32,
        (funct3 == 0x1 && funct7 == 0x00) || (funct3 == 0x5 && funct7 == 0x00) || (funct3 == 0x5
            && funct7 == 0x20),
    ensures
        spec_encode_i_shift(
            0x13,
            funct3,
            funct7,
            seq![
                OperandModel::Register(rd),
                OperandModel::Register(rs1),
                OperandModel::Immediate(shamt),
            ],
        ) == Ok::<u32, Seq<char>>(pack_shift(0x13, funct3, funct7, rd as u32, rs1 as u32, shamt)),
        crate::processor::spec_decode(pack_shift(0x13, funct3, funct7, rd as u32, rs1 as u32, shamt))
            == Ok::<Instruction, crate::processor::StepError>(
            shift_inst(funct3, funct7, rd as usize, rs1 as usize, shamt as u32),
        ),
{
    bv_shift_fields(funct3, funct7, rd, rs1, shamt);
}

proof fn bv_s_fields(funct3: u32, rs2: u8, reg: u8, v: i32)
    by (bit_vector)
    requires
        rs2 < 32,
        reg < 32,
        funct3 < 8,
        -2048 <= v < 2048,
    ensures
        spec_s_word(0x23, funct3, rs2 as u32, reg as u32, v as u32) & 0x7F == 0x23,
        (spec_s_word(0x23, funct3, rs2 as u32, reg as u32, v as u32) >> 15) & 0x1F == reg,
        (spec_s_word(0x23, funct3, rs2 as u32, reg as u32, v as u32) >> 20) & 0x1F == rs2,
        (spec_s_word(0x23, funct3, rs2 as u32, reg as u32, v as u32) >> 12) & 0x7 == funct3,
        v >= 0 ==> (spec_s_word(0x23, funct3, rs2 as u32, reg as u32, v as u32) >> 25) * 0x20 + ((
        spec_s_word(0x23, funct3, rs2 as u32, reg as u32, v as u32) >> 7) & 0x1F) == v,
        v < 0 ==> (spec_s_word(0x23, funct3, rs2 as u32, reg as u32, v as u32) >> 25) * 0x20 + ((
        spec_s_word(0x23, funct3, rs2 as u32, reg as u32, v as u32) >> 7) & 0x1F) == v + 0x1000,
{
}

/// The store instruction selected by a `funct3` of the RV32I table.
pub open spec fn store_inst(funct3: u32, rs1: usize, rs2: usize, imm: i32) -> Instruction {
    if funct3 == 0x0 {
        Instruction::Sb { rs1, rs2, imm }
    } else if funct3 == 0x1 {
        Instruction::Sh { rs1, rs2, imm }
    } else {
        Instruction::Sw { rs1, rs2, imm }
    }
}

/// Encode/decode round trip for the stores: the decoder reassembles the
/// split 12-bit offset with its sign.
pub proof fn lemma_s_roundtrip(
    funct3: u32,
    rs2: u8,
    reg: u8,
    v: i32,
    entries: Seq<(Seq<char>, u32)>,
)
    requires
        rs2 < 32,
        reg < 32,
        -2048 <= v < 2048,
        funct3 == 0x0 || funct3 == 0x1 || funct3 == 0x2,
    ensures
        spec_encode_s(
            0x23,
            funct3,
            seq![
                OperandModel::Register(rs2),
                OperandModel::Memory { offset: MemOffsetModel::Immediate(v), reg },
            ],
            entries,
        ) == Ok::<u32, Seq<char>>(spec_s_word(0x23, funct3, rs2 as u32, reg as u32, v as u32)),
        crate::processor::spec_decode(spec_s_word(0x23, funct3, rs2 as u32, reg as u32, v as u32))
            == Ok::<Instruction, crate::processor::StepError>(
            store_inst(funct3, reg as usize, rs2 as usize, v),
        ),
{
    bv_s_fields(funct3, rs2, reg, v);
}

proof fn bv_b_fields(funct3: u32, rs1: u8, rs2: u8, v: i32)
    by (bit_vector)
    requires
        rs1 < 32,
        rs2 < 32,
        funct3 < 8,
        -4096 <= v < 4096,
        v % 2 == 0,
    ensures
        spec_b_word(0x63, funct3, rs1 as u32, rs2 as u32, v as u32) & 0x7F == 0x63,
        (spec_b_word(0x63, funct3, rs1 as u32, rs2 as u32, v as u32) >> 15) & 0x1F == rs1,
        (spec_b_word(0x63, funct3, rs1 as u32, rs2 as u32, v as u32) >> 20) & 0x1F == rs2,
        (spec_b_word(0x63, funct3, rs1 as u32, rs2 as u32, v as u32) >> 12) & 0x7 == funct3,
        v >= 0 ==> (spec_b_word(0x63, funct3, rs1 as u32, rs2 as u32, v as u32) >> 31) * 0x1000 + ((
        spec_b_word(0x63, funct3, rs1 as u32, rs2 as u32, v as u32) >> 7) & 0x1) * 0x800 + ((
        spec_b_word(0x63, funct3, rs1 as u32, rs2 as u32, v as u32) >> 25) & 0x3F) * 0x20 + ((
        spec_b_word(0x63, funct3, rs1 as u32, rs2 as u32, v as u32) >> 8) & 0xF) * 0x2 == v,
        v < 0 ==> (spec_b_word(0x63, funct3, rs1 as u32, rs2 as u32, v as u32) >> 31) * 0x1000 + ((
        spec_b_word(0x63, funct3, rs1 as u32, rs2 as u32, v as u32) >> 7) & 0x1) * 0x800 + ((
        spec_b_word(0x63, funct3, rs1 as u32, rs2 as u32, v as u32) >> 25) & 0x3F) * 0x20 + ((
        spec_b_word(0x63, funct3, rs1 as u32, rs2 as u32, v as u32) >> 8) & 0xF) * 0x2 == v
            + 0x2000,
{
}

/// The branch instruction selected by a `funct3` of the RV32I table.
pub open spec fn branch_inst(funct3: u32, rs1: usize, rs2: usize, imm: i32) -> Instruction {
    if funct3 == 0x0 {
        Instruction::Beq { rs1, rs2, imm }
    } else if funct3 == 0x1 {
        Instruction::Bne { rs1, rs2, imm }
    } else if funct3 == 0x4 {
        Instruction::Blt { rs1, rs2, imm }
    } else if funct3 == 0x5 {
        Instruction::Bge { rs1, rs2, imm }
    } else if funct3 == 0x6 {
        Instruction::Bltu { rs1, rs2, imm }
    } else {
        Instruction::Bgeu { rs1, rs2, imm }
    }
}

/// Encode/decode round trip for the branches: the decoder reassembles the
/// scattered 13-bit even displacement with its sign.
pub proof fn lemma_b_roundtrip(
    funct3: u32,
    rs1: u8,
    rs2: u8,
    v: i32,
    entries: Seq<(Seq<char>, u32)>,
    pc: u32,
)
    requires
        rs1 < 32,
        rs2 < 32,
        -4096 <= v < 4096,
        v % 2 == 0,
        funct3 == 0x0 || funct3 == 0x1 || funct3 == 0x4 || funct3 == 0x5 || funct3 == 0x6
            || funct3 == 0x7,
    ensures
        spec_encode_b(
            0x63,
            funct3,
            seq![
                OperandModel::Register(rs1),
                OperandModel::Register(rs2),
                OperandModel::Immediate(v),
            ],
            entries,
            pc,
        ) == Ok::<u32, Seq<char>>(spec_b_word(0x63, funct3, rs1 as u32, rs2 as u32, v as u32)),
        crate::processor::spec_decode(spec_b_word(0x63, funct3, rs1 as u32, rs2 as u32, v as u32))
            == Ok::<Instruction, crate::processor::StepError>(
            branch_inst(funct3, rs1 as usize, rs2 as usize, v),
        ),
{
    bv_b_fields(funct3, rs1, rs2, v);
}

proof fn bv_j_fields(rd: u8, v: i32)
    by (bit_vector)
    requires
        rd < 32,
        -0x10_0000 <= v < 0x10_0000,
        v % 2 == 0,
    ensures
        spec_j_word(0x6F, rd as u32, v as u32) & 0x7F == 0x6F,
        (spec_j_word(0x6F, rd as u32, v as u32) >> 7) & 0x1F == rd,
        v >= 0 ==> (spec_j_word(0x6F, rd as u32, v as u32) >> 31) * 0x10_0000 + ((spec_j_word(
            0x6F,
            rd as u32,
            v as u32,
        ) >> 12) & 0xFF) * 0x1000 + ((spec_j_word(0x6F, rd as u32, v as u32) >> 20) & 0x1) * 0x800
            + ((spec_j_word(0x6F, rd as u32, v as u32) >> 21) & 0x3FF) * 0x2 == v,
        v < 0 ==> (spec_j_word(0x6F, rd as u32, v as u32) >> 31) * 0x10_0000 + ((spec_j_word(
            0x6F,
            rd as u32,
            v as u32,
        ) >> 12) & 0xFF) * 0x1000 + ((spec_j_word(0x6F, rd as u32, v as u32) >> 20) & 0x1) * 0x800
            + ((spec_j_word(0x6F, rd as u32, v as u32) >> 21) & 0x3FF) * 0x2 == v + 0x20_0000,
{
}

/// Encode/decode round trip for `jal`: the decoder reassembles the
/// scattered 21-bit even displacement with its sign.
pub proof fn lemma_j_roundtrip(rd: u8, v: i32, entries: Seq<(Seq<char>, u32)>, pc: u32)
    requires
        rd < 32,
        -0x10_0000 <= v < 0x10_0000,
        v % 2 == 0,
    ensures
        spec_encode_j(
            0x6F,
            seq![OperandModel::Register(rd), OperandModel::Immediate(v)],
            entries,
            pc,
        ) == Ok::<u32, Seq<char>>(spec_j_word(0x6F, rd as u32, v as u32)),
        crate::processor::spec_decode(spec_j_word(0x6F, rd as u32, v as u32)) == Ok::<
            Instruction,
            crate::processor::StepError,
        >(Instruction::Jal { rd: rd as usize, imm: v }),
{
    bv_j_fields(rd, v);
}

proof fn bv_u_fields(opcode: u32, rd: u8, v: i32)
    by (bit_vector)
    requires
        rd < 32,
        0 <= v < 0x10_0000,
        opcode < 0x80,
    ensures
        (((v as u32) & 0xFFFFF) << 12 | ((rd as u32) << 7) | opcode) & 0x7F == opcode,
        ((((v as u32) & 0xFFFFF) << 12 | ((rd as u32) << 7) | opcode) >> 7) & 0x1F == rd,
        (((v as u32) & 0xFFFFF) << 12 | ((rd as u32) << 7) | opcode) & 0xFFFF_F000 == (v as u32)
            * 4096,
{
}

/// Encode/decode round trip for `lui` and `auipc`: the decoder recovers
/// the 20-bit immediate shifted into the upper word, reinterpreted as a
/// signed value.
pub proof fn lemma_u_roundtrip(opcode: u32, rd: u8, v: i32)
    requires
        rd < 32,
        0 <= v < 0x10_0000,
        opcode == 0x37 || opcode == 0x17,
    ensures
        spec_encode_u(opcode, seq![OperandModel::Register(rd), OperandModel::Immediate(v)])
            == Ok::<u32, Seq<char>>((((v as u32) & 0xFFFFF) << 12) | ((rd as u32) << 7) | opcode),
        ({
            let imm: i32 = if v < 0x8_0000 {
                (v * 4096) as i32
            } else {
                (v * 4096 - 0x1_0000_0000) as i32
            };
            crate::processor::spec_decode((((v as u32) & 0xFFFFF) << 12) | ((rd as u32) << 7)
                | opcode) == Ok::<Instruction, crate::processor::StepError>(
                if opcode == 0x37 {
                    Instruction::Lui { rd: rd as usize, imm }
                } else {
                    Instruction::Auipc { rd: rd as usize, imm }
                },
            )
        }),
{
    bv_u_fields(opcode, rd, v);
}

/// Every word the encoder emits stands in the output as its four
/// little-endian bytes, and those bytes reassemble to the same word.
pub proof fn lemma_le_word_roundtrip(w: u32)
    by (bit_vector)
    ensures
        crate::processor::le_word(le4(w)[0], le4(w)[1], le4(w)[2], le4(w)[3]) == w,
{
}

/// The comma-separated rendering of a non-empty operand list.
fn operands_text(ops: &[Operand]) -> (r: String)
    requires
        ops@.len() > 0,
    ensures
        r@ == spec_operands_text(ops_views(ops@), 0),
{
    let ghost opsm = ops_views(ops@);
    let mut s = String::new();
    let mut i: usize = 0;
    while i < ops.len()
        invariant
            opsm == ops_views(ops@),
            opsm.len() == ops@.len(),
            0 < opsm.len(),
            i <= ops@.len(),
            i < ops@.len() ==> s@ + spec_operands_text(opsm, i as int) == spec_operands_text(
                opsm,
                0,
            ),
            i == ops@.len() ==> s@ == spec_operands_text(opsm, 0),
        decreases ops@.len() - i,
    {
        proof {
            reveal_strlit(", ");
            assert(", "@ =~= seq![',', ' ']);
            assert(opsm[i as int] == ops@[i as int]@);
        }
        s.append(operand_text(&ops[i]).as_str());
        if i + 1 < ops.len() {
            s.append(", ");
        }
        i = i + 1;
    }
    s
}

} // verus!