//! The execution engine: segmented memory, the instruction decoder and the
//! fetch/decode/execute loop over the architectural register file.

use vstd::prelude::*;

verus! {

/// A fault raised by a memory access whose address lies in no segment,
/// or (reserved for refinements of the memory model) by other illegal
/// accesses.
#[derive(Debug, PartialEq, Eq, Structural, Clone, Copy)]
pub enum MemoryFault {
    OutOfBounds { address: u32 },
    WriteToReadOnly { address: u32 },
    UnalignedAccess { address: u32 },
    ExecuteFromNonExecutable { address: u32 },
}

/// Segmented byte-addressed memory: three disjoint backing vectors, each
/// anchored at a base address. An address is valid iff it falls in one of
/// the three half-open ranges `[base, base + len)`.
pub struct Memory {
    pub text: Vec<u8>,
    pub data: Vec<u8>,
    pub stack: Vec<u8>,
    pub text_base: u32,
    pub data_base: u32,
    pub stack_base: u32,
}

/// Mathematical model of a `Memory`: the three segment contents as byte
/// sequences together with their base addresses.
pub struct MemModel {
    pub text: Seq<u8>,
    pub data: Seq<u8>,
    pub stack: Seq<u8>,
    pub text_base: u32,
    pub data_base: u32,
    pub stack_base: u32,
}

impl View for Memory {
    type V = MemModel;

    open spec fn view(&self) -> MemModel {
        MemModel {
            text: self.text@,
            data: self.data@,
            stack: self.stack@,
            text_base: self.text_base,
            data_base: self.data_base,
            stack_base: self.stack_base,
        }
    }
}

/// Does address `a` fall inside the text segment?
pub open spec fn in_text(m: MemModel, a: u32) -> bool {
    m.text_base <= a && a < m.text_base + m.text.len()
}

/// Does address `a` fall inside the data segment?
pub open spec fn in_data(m: MemModel, a: u32) -> bool {
    m.data_base <= a && a < m.data_base + m.data.len()
}

/// Does address `a` fall inside the stack segment?
pub open spec fn in_stack(m: MemModel, a: u32) -> bool {
    m.stack_base <= a && a < m.stack_base + m.stack.len()
}

/// The byte stored at address `a`, or `None` when `a` lies in no segment.
/// Segments are consulted in the fixed order text, data, stack.
pub open spec fn mem_byte(m: MemModel, a: u32) -> Option<u8> {
    if in_text(m, a) {
        Some(m.text[a - m.text_base])
    } else if in_data(m, a) {
        Some(m.data[a - m.data_base])
    } else if in_stack(m, a) {
        Some(m.stack[a - m.stack_base])
    } else {
        None
    }
}

/// The memory after storing byte `v` at address `a`, or `None` when `a`
/// lies in no segment.
pub open spec fn mem_with_byte(m: MemModel, a: u32, v: u8) -> Option<MemModel> {
    if in_text(m, a) {
        Some(MemModel { text: m.text.update(a - m.text_base, v), ..m })
    } else if in_data(m, a) {
        Some(MemModel { data: m.data.update(a - m.data_base, v), ..m })
    } else if in_stack(m, a) {
        Some(MemModel { stack: m.stack.update(a - m.stack_base, v), ..m })
    } else {
        None
    }
}

/// `a + b` modulo `2^32`: the wrapping address and ALU arithmetic of RV32I.
pub open spec fn w_add(a: u32, b: u32) -> u32 {
    if a + b > 0xFFFF_FFFF {
        (a + b - 0x1_0000_0000) as u32
    } else {
        (a + b) as u32
    }
}

/// `a - b` modulo `2^32`.
pub open spec fn w_sub(a: u32, b: u32) -> u32 {
    if a >= b {
        (a - b) as u32
    } else {
        (a + 0x1_0000_0000 - b) as u32
    }
}

/// Result and final memory of a half-word store: two byte stores at `a`
/// and `a + 1`, least significant byte first, stopping at the first fault.
pub open spec fn mem_write_half(m: MemModel, a: u32, v: u16) -> (MemModel, Result<
    (),
    MemoryFault,
>) {
    match mem_with_byte(m, a, (v % 0x100) as u8) {
        None => (m, Err(MemoryFault::OutOfBounds { address: a })),
        Some(m1) => match mem_with_byte(m1, w_add(a, 1), (v / 0x100) as u8) {
            None => (m1, Err(MemoryFault::OutOfBounds { address: w_add(a, 1) })),
            Some(m2) => (m2, Ok(())),
        },
    }
}

/// Result and final memory of a word store: four byte stores at
/// `a .. a + 3`, least significant byte first, stopping at the first fault.
pub open spec fn mem_write_word(m: MemModel, a: u32, v: u32) -> (MemModel, Result<
    (),
    MemoryFault,
>) {
    match mem_with_byte(m, a, (v % 0x100) as u8) {
        None => (m, Err(MemoryFault::OutOfBounds { address: a })),
        Some(m1) => match mem_with_byte(m1, w_add(a, 1), ((v / 0x100) % 0x100) as u8) {
            None => (m1, Err(MemoryFault::OutOfBounds { address: w_add(a, 1) })),
            Some(m2) => match mem_with_byte(m2, w_add(a, 2), ((v / 0x1_0000) % 0x100) as u8) {
                None => (m2, Err(MemoryFault::OutOfBounds { address: w_add(a, 2) })),
                Some(m3) => match mem_with_byte(m3, w_add(a, 3), (v / 0x100_0000) as u8) {
                    None => (m3, Err(MemoryFault::OutOfBounds { address: w_add(a, 3) })),
                    Some(m4) => (m4, Ok(())),
                },
            },
        },
    }
}

/// The little-endian half-word formed from two bytes.
pub open spec fn le_half(b0: u8, b1: u8) -> u16 {
    (b1 * 0x100 + b0) as u16
}

/// The little-endian word formed from four bytes.
pub open spec fn le_word(b0: u8, b1: u8, b2: u8, b3: u8) -> u32 {
    (b3 * 0x100_0000 + b2 * 0x1_0000 + b1 * 0x100 + b0) as u32
}

/// The half-word read at `a`: bytes at `a` and `a + 1`, little-endian;
/// `Err` names the first faulting address.
pub open spec fn mem_read_half(m: MemModel, a: u32) -> Result<u16, MemoryFault> {
    match mem_byte(m, a) {
        None => Err(MemoryFault::OutOfBounds { address: a }),
        Some(b0) => match mem_byte(m, w_add(a, 1)) {
            None => Err(MemoryFault::OutOfBounds { address: w_add(a, 1) }),
            Some(b1) => Ok(le_half(b0, b1)),
        },
    }
}

/// The word read at `a`: bytes at `a .. a + 3`, little-endian; `Err` names
/// the first faulting address.
pub open spec fn mem_read_word(m: MemModel, a: u32) -> Result<u32, MemoryFault> {
    match mem_byte(m, a) {
        None => Err(MemoryFault::OutOfBounds { address: a }),
        Some(b0) => match mem_byte(m, w_add(a, 1)) {
            None => Err(MemoryFault::OutOfBounds { address: w_add(a, 1) }),
            Some(b1) => match mem_byte(m, w_add(a, 2)) {
                None => Err(MemoryFault::OutOfBounds { address: w_add(a, 2) }),
                Some(b2) => match mem_byte(m, w_add(a, 3)) {
                    None => Err(MemoryFault::OutOfBounds { address: w_add(a, 3) }),
                    Some(b3) => Ok(le_word(b0, b1, b2, b3)),
                },
            },
        },
    }
}

impl Memory {
    /// Read the byte at `address`, or report `OutOfBounds` when it lies in
    /// no segment.
    pub fn read_byte(&self, address: u32) -> (r: Result<u8, MemoryFault>)
        ensures
            r == match mem_byte(self@, address) {
                Some(v) => Ok::<u8, MemoryFault>(v),
                None => Err::<u8, MemoryFault>(MemoryFault::OutOfBounds { address }),
            },
    {
        if address >= self.text_base && ((address - self.text_base) as usize) < self.text.len() {
            Ok(self.text[(address - self.text_base) as usize])
        } else if address >= self.data_base && ((address - self.data_base) as usize)
            < self.data.len() {
            Ok(self.data[(address - self.data_base) as usize])
        } else if address >= self.stack_base && ((address - self.stack_base) as usize)
            < self.stack.len() {
            Ok(self.stack[(address - self.stack_base) as usize])
        } else {
            Err(MemoryFault::OutOfBounds { address })
        }
    }

    /// Store `value` at `address`; the memory is unchanged on a fault.
    pub fn write_byte(&mut self, address: u32, value: u8) -> (r: Result<(), MemoryFault>)
        ensures
            match mem_with_byte(old(self)@, address, value) {
                Some(m) => final(self)@ == m && r == Ok::<(), MemoryFault>(()),
                None => final(self)@ == old(self)@ && r == Err::<(), MemoryFault>(
                    MemoryFault::OutOfBounds { address },
                ),
            },
    {
        if address >= self.text_base && ((address - self.text_base) as usize) < self.text.len() {
            let i: usize = (address - self.text_base) as usize;
            self.text.set(i, value);
            Ok(())
        } else if address >= self.data_base && ((address - self.data_base) as usize)
            < self.data.len() {
            let i: usize = (address - self.data_base) as usize;
            self.data.set(i, value);
            Ok(())
        } else if address >= self.stack_base && ((address - self.stack_base) as usize)
            < self.stack.len() {
            let i: usize = (address - self.stack_base) as usize;
            self.stack.set(i, value);
            Ok(())
        } else {
            Err(MemoryFault::OutOfBounds { address })
        }
    }

    /// Store the half-word `value` at `address`, little-endian, one byte at
    /// a time; a fault on either byte stops the store there.
    pub fn write_half(&mut self, address: u32, value: u16) -> (r: Result<(), MemoryFault>)
        ensures
            (final(self)@, r) == mem_write_half(old(self)@, address, value),
    {
        let byte0: u8 = (value % 0x100) as u8;
        let byte1: u8 = (value / 0x100) as u8;
        let r0 = self.write_byte(address, byte0);
        if let Err(e) = r0 {
            return Err(e);
        }
        let r1 = self.write_byte(address.wrapping_add(1), byte1);
        if let Err(e) = r1 {
            return Err(e);
        }
        Ok(())
    }

    /// Store the word `value` at `address`, little-endian, one byte at a
    /// time; a fault on any byte stops the store there.
    #[verifier::rlimit(30)]
    pub fn write_word(&mut self, address: u32, value: u32) -> (r: Result<(), MemoryFault>)
        ensures
            (final(self)@, r) == mem_write_word(old(self)@, address, value),
    {
        let byte0: u8 = (value % 0x100) as u8;
        let byte1: u8 = ((value / 0x100) % 0x100) as u8;
        let byte2: u8 = ((value / 0x1_0000) % 0x100) as u8;
        let byte3: u8 = (value / 0x100_0000) as u8;
        let r0 = self.write_byte(address, byte0);
        if let Err(e) = r0 {
            return Err(e);
        }
        let r1 = self.write_byte(address.wrapping_add(1), byte1);
        if let Err(e) = r1 {
            return Err(e);
        }
        let r2 = self.write_byte(address.wrapping_add(2), byte2);
        if let Err(e) = r2 {
            return Err(e);
        }
        let r3 = self.write_byte(address.wrapping_add(3), byte3);
        if let Err(e) = r3 {
            return Err(e);
        }
        Ok(())
    }

    /// Read the half-word at `address`, little-endian.
    pub fn read_half(&self, address: u32) -> (r: Result<u16, MemoryFault>)
        ensures
            r == mem_read_half(self@, address),
    {
        let byte0 = match self.read_byte(address) {
            Ok(b) => b,
            Err(e) => {
                return Err(e);
            },
        };
        let byte1 = match self.read_byte(address.wrapping_add(1)) {
            Ok(b) => b,
            Err(e) => {
                return Err(e);
            },
        };
        Ok((byte1 as u16) * 0x100 + (byte0 as u16))
    }

    /// Read the word at `address`, little-endian.
    pub fn read_word(&self, address: u32) -> (r: Result<u32, MemoryFault>)
        ensures
            r == mem_read_word(self@, address),
    {
        let byte0 = match self.read_byte(address) {
            Ok(b) => b,
            Err(e) => {
                return Err(e);
            },
        };
        let byte1 = match self.read_byte(address.wrapping_add(1)) {
            Ok(b) => b,
            Err(e) => {
                return Err(e);
            },
        };
        let byte2 = match self.read_byte(address.wrapping_add(2)) {
            Ok(b) => b,
            Err(e) => {
                return Err(e);
            },
        };
        let byte3 = match self.read_byte(address.wrapping_add(3)) {
            Ok(b) => b,
            Err(e) => {
                return Err(e);
            },
        };
        Ok(
            (byte3 as u32) * 0x100_0000 + (byte2 as u32) * 0x1_0000 + (byte1 as u32) * 0x100 + (
            byte0 as u32),
        )
    }
}

/// A byte store followed by a read of the same in-range address returns the
/// stored value; on an address in no segment both operations report
/// `OutOfBounds` at that address and a store leaves the memory unchanged.
pub proof fn lemma_write_read_byte(m: MemModel, a: u32, v: u8)
    ensures
        mem_with_byte(m, a, v) is Some <==> mem_byte(m, a) is Some,
        mem_with_byte(m, a, v) is Some ==> mem_byte(mem_with_byte(m, a, v)->Some_0, a) == Some(v),
{
}

/// An error that halts `step()`: an undecodable word, a memory fault, or
/// an environment call surfacing to the driver.
#[derive(Debug, PartialEq, Eq, Structural, Clone, Copy)]
pub enum StepError {
    IllegalInstruction,
    MemoryFault(MemoryFault),
    Ebreak,
    Ecall,
}

impl From<MemoryFault> for StepError {
    fn from(fault: MemoryFault) -> (r: StepError) {
        StepError::MemoryFault(fault)
    }
}

impl vstd::std_specs::convert::FromSpecImpl<MemoryFault> for StepError {
    open spec fn obeys_from_spec() -> bool {
        true
    }

    open spec fn from_spec(fault: MemoryFault) -> StepError {
        StepError::MemoryFault(fault)
    }
}

/// A decoded RV32I instruction. Register indices are already masked to
/// five bits; immediates are sign-extended to 32 bits at decode time;
/// `shamt` is the five-bit shift amount of the shift-immediate forms.
#[derive(Debug, PartialEq, Eq, Structural, Clone, Copy)]
pub enum Instruction {
    Add { rd: usize, rs1: usize, rs2: usize },
    Sub { rd: usize, rs1: usize, rs2: usize },
    And { rd: usize, rs1: usize, rs2: usize },
    Or { rd: usize, rs1: usize, rs2: usize },
    Xor { rd: usize, rs1: usize, rs2: usize },
    Sll { rd: usize, rs1: usize, rs2: usize },
    Srl { rd: usize, rs1: usize, rs2: usize },
    Sra { rd: usize, rs1: usize, rs2: usize },
    Slt { rd: usize, rs1: usize, rs2: usize },
    Sltu { rd: usize, rs1: usize, rs2: usize },
    Addi { rd: usize, rs1: usize, imm: i32 },
    Andi { rd: usize, rs1: usize, imm: i32 },
    Ori { rd: usize, rs1: usize, imm: i32 },
    Xori { rd: usize, rs1: usize, imm: i32 },
    Slli { rd: usize, rs1: usize, shamt: u32 },
    Srli { rd: usize, rs1: usize, shamt: u32 },
    Srai { rd: usize, rs1: usize, shamt: u32 },
    Slti { rd: usize, rs1: usize, imm: i32 },
    Sltiu { rd: usize, rs1: usize, imm: i32 },
    Lb { rd: usize, rs1: usize, imm: i32 },
    Lh { rd: usize, rs1: usize, imm: i32 },
    Lw { rd: usize, rs1: usize, imm: i32 },
    Lbu { rd: usize, rs1: usize, imm: i32 },
    Lhu { rd: usize, rs1: usize, imm: i32 },
    Sb { rs1: usize, rs2: usize, imm: i32 },
    Sh { rs1: usize, rs2: usize, imm: i32 },
    Sw { rs1: usize, rs2: usize, imm: i32 },
    Beq { rs1: usize, rs2: usize, imm: i32 },
    Bne { rs1: usize, rs2: usize, imm: i32 },
    Blt { rs1: usize, rs2: usize, imm: i32 },
    Bge { rs1: usize, rs2: usize, imm: i32 },
    Bltu { rs1: usize, rs2: usize, imm: i32 },
    Bgeu { rs1: usize, rs2: usize, imm: i32 },
    Lui { rd: usize, imm: i32 },
    Auipc { rd: usize, imm: i32 },
    Jal { rd: usize, imm: i32 },
    Jalr { rd: usize, rs1: usize, imm: i32 },
    Ecall,
    Ebreak,
    Fence,
}

/// All register indices of the instruction are in range and shift amounts
/// fit in five bits, as the decoder guarantees.
pub open spec fn inst_wf(i: Instruction) -> bool {
    match i {
        Instruction::Add { rd, rs1, rs2 } => rd < 32 && rs1 < 32 && rs2 < 32,
        Instruction::Sub { rd, rs1, rs2 } => rd < 32 && rs1 < 32 && rs2 < 32,
        Instruction::And { rd, rs1, rs2 } => rd < 32 && rs1 < 32 && rs2 < 32,
        Instruction::Or { rd, rs1, rs2 } => rd < 32 && rs1 < 32 && rs2 < 32,
        Instruction::Xor { rd, rs1, rs2 } => rd < 32 && rs1 < 32 && rs2 < 32,
        Instruction::Sll { rd, rs1, rs2 } => rd < 32 && rs1 < 32 && rs2 < 32,
        Instruction::Srl { rd, rs1, rs2 } => rd < 32 && rs1 < 32 && rs2 < 32,
        Instruction::Sra { rd, rs1, rs2 } => rd < 32 && rs1 < 32 && rs2 < 32,
        Instruction::Slt { rd, rs1, rs2 } => rd < 32 && rs1 < 32 && rs2 < 32,
        Instruction::Sltu { rd, rs1, rs2 } => rd < 32 && rs1 < 32 && rs2 < 32,
        Instruction::Addi { rd, rs1, .. } => rd < 32 && rs1 < 32,
        Instruction::Andi { rd, rs1, .. } => rd < 32 && rs1 < 32,
        Instruction::Ori { rd, rs1, .. } => rd < 32 && rs1 < 32,
        Instruction::Xori { rd, rs1, .. } => rd < 32 && rs1 < 32,
        Instruction::Slli { rd, rs1, shamt } => rd < 32 && rs1 < 32 && shamt < 32,
        Instruction::Srli { rd, rs1, shamt } => rd < 32 && rs1 < 32 && shamt < 32,
        Instruction::Srai { rd, rs1, shamt } => rd < 32 && rs1 < 32 && shamt < 32,
        Instruction::Slti { rd, rs1, .. } => rd < 32 && rs1 < 32,
        Instruction::Sltiu { rd, rs1, .. } => rd < 32 && rs1 < 32,
        Instruction::Lb { rd, rs1, .. } => rd < 32 && rs1 < 32,
        Instruction::Lh { rd, rs1, .. } => rd < 32 && rs1 < 32,
        Instruction::Lw { rd, rs1, .. } => rd < 32 && rs1 < 32,
        Instruction::Lbu { rd, rs1, .. } => rd < 32 && rs1 < 32,
        Instruction::Lhu { rd, rs1, .. } => rd < 32 && rs1 < 32,
        Instruction::Sb { rs1, rs2, .. } => rs1 < 32 && rs2 < 32,
        Instruction::Sh { rs1, rs2, .. } => rs1 < 32 && rs2 < 32,
        Instruction::Sw { rs1, rs2, .. } => rs1 < 32 && rs2 < 32,
        Instruction::Beq { rs1, rs2, .. } => rs1 < 32 && rs2 < 32,
        Instruction::Bne { rs1, rs2, .. } => rs1 < 32 && rs2 < 32,
        Instruction::Blt { rs1, rs2, .. } => rs1 < 32 && rs2 < 32,
        Instruction::Bge { rs1, rs2, .. } => rs1 < 32 && rs2 < 32,
        Instruction::Bltu { rs1, rs2, .. } => rs1 < 32 && rs2 < 32,
        Instruction::Bgeu { rs1, rs2, .. } => rs1 < 32 && rs2 < 32,
        Instruction::Lui { rd, .. } => rd < 32,
        Instruction::Auipc { rd, .. } => rd < 32,
        Instruction::Jal { rd, .. } => rd < 32,
        Instruction::Jalr { rd, rs1, .. } => rd < 32 && rs1 < 32,
        Instruction::Ecall => true,
        Instruction::Ebreak => true,
        Instruction::Fence => true,
    }
}

/// Sign-extend a 12-bit field to a signed 32-bit value.
pub open spec fn sign_ext12(x: int) -> i32
    recommends
        0 <= x < 0x1000,
{
    if x >= 0x800 {
        (x - 0x1000) as i32
    } else {
        x as i32
    }
}

/// Sign-extend a 13-bit field (branch offsets; bit 0 is implicitly zero).
pub open spec fn sign_ext13(x: int) -> i32
    recommends
        0 <= x < 0x2000,
{
    if x >= 0x1000 {
        (x - 0x2000) as i32
    } else {
        x as i32
    }
}

/// Sign-extend a 21-bit field (`jal` offsets; bit 0 is implicitly zero).
pub open spec fn sign_ext21(x: int) -> i32
    recommends
        0 <= x < 0x20_0000,
{
    if x >= 0x10_0000 {
        (x - 0x20_0000) as i32
    } else {
        x as i32
    }
}

/// The U-type immediate: the upper twenty bits of the word, reinterpreted
/// as a signed value.
pub open spec fn u_type_imm(w: u32) -> i32 {
    if w & 0xFFFF_F000 >= 0x8000_0000 {
        ((w & 0xFFFF_F000) - 0x1_0000_0000) as i32
    } else {
        (w & 0xFFFF_F000) as i32
    }
}

/// The machine word `w` decoded as an R-type instruction.
pub open spec fn spec_decode_r(w: u32) -> Result<Instruction, StepError> {
    let rd = ((w >> 7) & 0x1F) as usize;
    let rs1 = ((w >> 15) & 0x1F) as usize;
    let rs2 = ((w >> 20) & 0x1F) as usize;
    let funct3 = (w >> 12) & 0x7;
    let funct7 = w >> 25;
    if funct3 == 0x0 && funct7 == 0x00 {
        Ok(Instruction::Add { rd, rs1, rs2 })
    } else if funct3 == 0x0 && funct7 == 0x20 {
        Ok(Instruction::Sub { rd, rs1, rs2 })
    } else if funct3 == 0x4 && funct7 == 0x00 {
        Ok(Instruction::Xor { rd, rs1, rs2 })
    } else if funct3 == 0x6 && funct7 == 0x00 {
        Ok(Instruction::Or { rd, rs1, rs2 })
    } else if funct3 == 0x7 && funct7 == 0x00 {
        Ok(Instruction::And { rd, rs1, rs2 })
    } else if funct3 == 0x1 && funct7 == 0x00 {
        Ok(Instruction::Sll { rd, rs1, rs2 })
    } else if funct3 == 0x5 && funct7 == 0x00 {
        Ok(Instruction::Srl { rd, rs1, rs2 })
    } else if funct3 == 0x5 && funct7 == 0x20 {
        Ok(Instruction::Sra { rd, rs1, rs2 })
    } else if funct3 == 0x2 && funct7 == 0x00 {
        Ok(Instruction::Slt { rd, rs1, rs2 })
    } else if funct3 == 0x3 && funct7 == 0x00 {
        Ok(Instruction::Sltu { rd, rs1, rs2 })
    } else {
        Err(StepError::IllegalInstruction)
    }
}

/// The machine word `w` decoded as a shift-immediate instruction.
pub open spec fn spec_decode_i_shift(w: u32) -> Result<Instruction, StepError> {
    let rd = ((w >> 7) & 0x1F) as usize;
    let rs1 = ((w >> 15) & 0x1F) as usize;
    let funct3 = (w >> 12) & 0x7;
    let funct7 = w >> 25;
    let shamt = (w >> 20) & 0x1F;
    if funct3 == 0x1 && funct7 == 0x00 {
        Ok(Instruction::Slli { rd, rs1, shamt })
    } else if funct3 == 0x5 && funct7 == 0x00 {
        Ok(Instruction::Srli { rd, rs1, shamt })
    } else if funct3 == 0x5 && funct7 == 0x20 {
        Ok(Instruction::Srai { rd, rs1, shamt })
    } else {
        Err(StepError::IllegalInstruction)
    }
}

/// The machine word `w` decoded as an I-type ALU instruction.
pub open spec fn spec_decode_i(w: u32) -> Result<Instruction, StepError> {
    let rd = ((w >> 7) & 0x1F) as usize;
    let rs1 = ((w >> 15) & 0x1F) as usize;
    let imm = sign_ext12((w >> 20) as int);
    let funct3 = (w >> 12) & 0x7;
    if funct3 == 0x0 {
        Ok(Instruction::Addi { rd, rs1, imm })
    } else if funct3 == 0x4 {
        Ok(Instruction::Xori { rd, rs1, imm })
    } else if funct3 == 0x6 {
        Ok(Instruction::Ori { rd, rs1, imm })
    } else if funct3 == 0x7 {
        Ok(Instruction::Andi { rd, rs1, imm })
    } else if funct3 == 0x1 || funct3 == 0x5 {
        spec_decode_i_shift(w)
    } else if funct3 == 0x2 {
        Ok(Instruction::Slti { rd, rs1, imm })
    } else {
        Ok(Instruction::Sltiu { rd, rs1, imm })
    }
}

/// The machine word `w` decoded as a load instruction.
pub open spec fn spec_decode_load(w: u32) -> Result<Instruction, StepError> {
    let rd = ((w >> 7) & 0x1F) as usize;
    let rs1 = ((w >> 15) & 0x1F) as usize;
    let imm = sign_ext12((w >> 20) as int);
    let funct3 = (w >> 12) & 0x7;
    if funct3 == 0x0 {
        Ok(Instruction::Lb { rd, rs1, imm })
    } else if funct3 == 0x1 {
        Ok(Instruction::Lh { rd, rs1, imm })
    } else if funct3 == 0x2 {
        Ok(Instruction::Lw { rd, rs1, imm })
    } else if funct3 == 0x4 {
        Ok(Instruction::Lbu { rd, rs1, imm })
    } else if funct3 == 0x5 {
        Ok(Instruction::Lhu { rd, rs1, imm })
    } else {
        Err(StepError::IllegalInstruction)
    }
}

/// The machine word `w` decoded as an S-type (store) instruction.
pub open spec fn spec_decode_s(w: u32) -> Result<Instruction, StepError> {
    let rs1 = ((w >> 15) & 0x1F) as usize;
    let rs2 = ((w >> 20) & 0x1F) as usize;
    let imm = sign_ext12((w >> 25) * 0x20 + ((w >> 7) & 0x1F));
    let funct3 = (w >> 12) & 0x7;
    if funct3 == 0x0 {
        Ok(Instruction::Sb { rs1, rs2, imm })
    } else if funct3 == 0x1 {
        Ok(Instruction::Sh { rs1, rs2, imm })
    } else if funct3 == 0x2 {
        Ok(Instruction::Sw { rs1, rs2, imm })
    } else {
        Err(StepError::IllegalInstruction)
    }
}

/// The machine word `w` decoded as a B-type (branch) instruction.
pub open spec fn spec_decode_b(w: u32) -> Result<Instruction, StepError> {
    let rs1 = ((w >> 15) & 0x1F) as usize;
    let rs2 = ((w >> 20) & 0x1F) as usize;
    let imm = sign_ext13(
        (w >> 31) * 0x1000 + ((w >> 7) & 0x1) * 0x800 + ((w >> 25) & 0x3F) * 0x20 + ((w >> 8)
            & 0xF) * 0x2,
    );
    let funct3 = (w >> 12) & 0x7;
    if funct3 == 0x0 {
        Ok(Instruction::Beq { rs1, rs2, imm })
    } else if funct3 == 0x1 {
        Ok(Instruction::Bne { rs1, rs2, imm })
    } else if funct3 == 0x4 {
        Ok(Instruction::Blt { rs1, rs2, imm })
    } else if funct3 == 0x5 {
        Ok(Instruction::Bge { rs1, rs2, imm })
    } else if funct3 == 0x6 {
        Ok(Instruction::Bltu { rs1, rs2, imm })
    } else if funct3 == 0x7 {
        Ok(Instruction::Bgeu { rs1, rs2, imm })
    } else {
        Err(StepError::IllegalInstruction)
    }
}

/// The machine word `w` decoded as `lui` or `auipc`.
pub open spec fn spec_decode_u(w: u32) -> Result<Instruction, StepError> {
    let rd = ((w >> 7) & 0x1F) as usize;
    let imm = u_type_imm(w);
    if w & 0x7F == 0x37 {
        Ok(Instruction::Lui { rd, imm })
    } else {
        Ok(Instruction::Auipc { rd, imm })
    }
}

/// The machine word `w` decoded as `jal`.
pub open spec fn spec_decode_j(w: u32) -> Result<Instruction, StepError> {
    let rd = ((w >> 7) & 0x1F) as usize;
    let imm = sign_ext21(
        (w >> 31) * 0x10_0000 + ((w >> 12) & 0xFF) * 0x1000 + ((w >> 20) & 0x1) * 0x800 + ((w
            >> 21) & 0x3FF) * 0x2,
    );
    Ok(Instruction::Jal { rd, imm })
}

/// The machine word `w` decoded as `jalr`; a non-zero `funct3` is illegal.
pub open spec fn spec_decode_jalr(w: u32) -> Result<Instruction, StepError> {
    let rd = ((w >> 7) & 0x1F) as usize;
    let rs1 = ((w >> 15) & 0x1F) as usize;
    let imm = sign_ext12((w >> 20) as int);
    if (w >> 12) & 0x7 != 0x0 {
        Err(StepError::IllegalInstruction)
    } else {
        Ok(Instruction::Jalr { rd, rs1, imm })
    }
}

/// The machine word `w` decoded as a system instruction: only the two
/// canonical words are accepted.
pub open spec fn spec_decode_system(w: u32) -> Result<Instruction, StepError> {
    if w == 0x0000_0073 {
        Ok(Instruction::Ecall)
    } else if w == 0x0010_0073 {
        Ok(Instruction::Ebreak)
    } else {
        Err(StepError::IllegalInstruction)
    }
}

/// The decoder: dispatch on the opcode in bits 6:0, then on `funct3` and
/// `funct7`; unknown combinations are illegal.
pub open spec fn spec_decode(w: u32) -> Result<Instruction, StepError> {
    let opcode = w & 0x7F;
    if opcode == 0x33 {
        spec_decode_r(w)
    } else if opcode == 0x13 {
        spec_decode_i(w)
    } else if opcode == 0x03 {
        spec_decode_load(w)
    } else if opcode == 0x23 {
        spec_decode_s(w)
    } else if opcode == 0x63 {
        spec_decode_b(w)
    } else if opcode == 0x6F {
        spec_decode_j(w)
    } else if opcode == 0x67 {
        spec_decode_jalr(w)
    } else if opcode == 0x37 || opcode == 0x17 {
        spec_decode_u(w)
    } else if opcode == 0x73 {
        spec_decode_system(w)
    } else if opcode == 0x0F {
        if w == 0x0000_000F {
            Ok(Instruction::Fence)
        } else {
            Err(StepError::IllegalInstruction)
        }
    } else {
        Err(StepError::IllegalInstruction)
    }
}

/// Bounds of the bit fields extracted by the decoder.
pub proof fn lemma_field_bounds(w: u32)
    by (bit_vector)
    ensures
        (w >> 7) & 0x1F < 32,
        (w >> 15) & 0x1F < 32,
        (w >> 20) & 0x1F < 32,
        (w >> 12) & 0x7 < 8,
        w >> 25 < 0x80,
        w & 0x7F < 0x80,
        w >> 20 < 0x1000,
        w >> 31 < 2,
        (w >> 25) & 0x3F < 0x40,
        (w >> 8) & 0xF < 0x10,
        (w >> 21) & 0x3FF < 0x400,
        (w >> 12) & 0xFF < 0x100,
        (w >> 20) & 0x1 < 2,
        (w >> 7) & 0x1 < 2,
        (w >> 20) & 0xFFF < 0x1000,
        v_mask5(w) < 32,
{
}

/// The low five bits of a register value, used as a shift count.
pub open spec fn v_mask5(v: u32) -> u32 {
    v & 0x1F
}

/// A word decodes to a well-formed instruction: register indices below 32
/// and shift amounts below 32.
pub proof fn lemma_decode_wf(w: u32)
    ensures
        spec_decode(w) is Ok ==> inst_wf(spec_decode(w)->Ok_0),
{
    lemma_field_bounds(w);
}

/// The value of register `i`: index 0 always reads as zero.
pub open spec fn reg_read(regs: Seq<u32>, i: int) -> u32
    recommends
        0 <= i < regs.len(),
{
    if i == 0 {
        0
    } else {
        regs[i]
    }
}

/// The register file after writing `v` to register `i`: a write to index 0
/// is discarded.
pub open spec fn reg_write(regs: Seq<u32>, i: int, v: u32) -> Seq<u32>
    recommends
        0 <= i < regs.len(),
{
    if i == 0 {
        regs
    } else {
        regs.update(i, v)
    }
}

/// The processor state: program counter, register file and memory.
pub struct ProcModel {
    pub pc: u32,
    pub regs: Seq<u32>,
    pub mem: MemModel,
}

/// The value `a` reinterpreted as a signed 32-bit two's-complement number.
pub open spec fn as_signed(a: u32) -> int {
    if a >= 0x8000_0000 {
        a - 0x1_0000_0000
    } else {
        a as int
    }
}

/// Arithmetic right shift of `a` by `sh < 32` bit positions: vacated high
/// bits are filled with the sign bit.
pub open spec fn sra32(a: u32, sh: u32) -> u32
    recommends
        sh < 32,
{
    if sh == 0 {
        a
    } else if a >= 0x8000_0000 {
        (a >> sh) | (0xFFFF_FFFFu32 << ((32 - sh) as u32))
    } else {
        a >> sh
    }
}

/// The byte `b` sign-extended to 32 bits.
pub open spec fn sign_ext_byte(b: u8) -> u32 {
    if b >= 0x80 {
        (b + 0xFFFF_FF00) as u32
    } else {
        b as u32
    }
}

/// The half-word `h` sign-extended to 32 bits.
pub open spec fn sign_ext_half(h: u16) -> u32 {
    if h >= 0x8000 {
        (h + 0xFFFF_0000) as u32
    } else {
        h as u32
    }
}

/// Source register `i` of state `p`.
pub open spec fn rv(p: ProcModel, i: usize) -> u32 {
    reg_read(p.regs, i as int)
}

/// The state after an instruction that changes no register: the program
/// counter advances by four.
pub open spec fn advanced(p: ProcModel) -> ProcModel {
    ProcModel { pc: w_add(p.pc, 4), ..p }
}

/// The state after writing `v` to destination register `rd` and advancing
/// the program counter by four.
pub open spec fn with_rd(p: ProcModel, rd: usize, v: u32) -> ProcModel {
    ProcModel { pc: w_add(p.pc, 4), regs: reg_write(p.regs, rd as int, v), ..p }
}

/// The state after a taken branch or jump to `target`, registers unchanged.
pub open spec fn jumped(p: ProcModel, target: u32) -> ProcModel {
    ProcModel { pc: target, ..p }
}

/// One instruction executed on state `p`: the resulting state and the step
/// result. On an error the program counter is not advanced; a faulting
/// multi-byte store keeps the bytes written before the fault.
pub open spec fn spec_execute(p: ProcModel, inst: Instruction) -> (ProcModel, Result<
    (),
    StepError,
>)
    recommends
        p.regs.len() == 32,
        inst_wf(inst),
{
    match inst {
        Instruction::Add { rd, rs1, rs2 } => (
            with_rd(p, rd, w_add(rv(p, rs1), rv(p, rs2))),
            Ok(()),
        ),
        Instruction::Sub { rd, rs1, rs2 } => (
            with_rd(p, rd, w_sub(rv(p, rs1), rv(p, rs2))),
            Ok(()),
        ),
        Instruction::And { rd, rs1, rs2 } => (with_rd(p, rd, rv(p, rs1) & rv(p, rs2)), Ok(())),
        Instruction::Or { rd, rs1, rs2 } => (with_rd(p, rd, rv(p, rs1) | rv(p, rs2)), Ok(())),
        Instruction::Xor { rd, rs1, rs2 } => (with_rd(p, rd, rv(p, rs1) ^ rv(p, rs2)), Ok(())),
        Instruction::Sll { rd, rs1, rs2 } => (
            with_rd(p, rd, rv(p, rs1) << v_mask5(rv(p, rs2))),
            Ok(()),
        ),
        Instruction::Srl { rd, rs1, rs2 } => (
            with_rd(p, rd, rv(p, rs1) >> v_mask5(rv(p, rs2))),
            Ok(()),
        ),
        Instruction::Sra { rd, rs1, rs2 } => (
            with_rd(p, rd, sra32(rv(p, rs1), v_mask5(rv(p, rs2)))),
            Ok(()),
        ),
        Instruction::Slt { rd, rs1, rs2 } => (
            with_rd(
                p,
                rd,
                if as_signed(rv(p, rs1)) < as_signed(rv(p, rs2)) {
                    1
                } else {
                    0
                },
            ),
            Ok(()),
        ),
        Instruction::Sltu { rd, rs1, rs2 } => (
            with_rd(
                p,
                rd,
                if rv(p, rs1) < rv(p, rs2) {
                    1
                } else {
                    0
                },
            ),
            Ok(()),
        ),
        Instruction::Addi { rd, rs1, imm } => (
            with_rd(p, rd, w_add(rv(p, rs1), imm as u32)),
            Ok(()),
        ),
        Instruction::Andi { rd, rs1, imm } => (with_rd(p, rd, rv(p, rs1) & (imm as u32)), Ok(())),
        Instruction::Ori { rd, rs1, imm } => (with_rd(p, rd, rv(p, rs1) | (imm as u32)), Ok(())),
        Instruction::Xori { rd, rs1, imm } => (with_rd(p, rd, rv(p, rs1) ^ (imm as u32)), Ok(())),
        Instruction::Slli { rd, rs1, shamt } => (with_rd(p, rd, rv(p, rs1) << shamt), Ok(())),
        Instruction::Srli { rd, rs1, shamt } => (with_rd(p, rd, rv(p, rs1) >> shamt), Ok(())),
        Instruction::Srai { rd, rs1, shamt } => (with_rd(p, rd, sra32(rv(p, rs1), shamt)), Ok(())),
        Instruction::Slti { rd, rs1, imm } => (
            with_rd(
                p,
                rd,
                if as_signed(rv(p, rs1)) < imm as int {
                    1
                } else {
                    0
                },
            ),
            Ok(()),
        ),
        Instruction::Sltiu { rd, rs1, imm } => (
            with_rd(
                p,
                rd,
                if rv(p, rs1) < imm as u32 {
                    1
                } else {
                    0
                },
            ),
            Ok(()),
        ),
        Instruction::Lb { rd, rs1, imm } => {
            let a = w_add(rv(p, rs1), imm as u32);
            match mem_byte(p.mem, a) {
                None => (p, Err(StepError::MemoryFault(MemoryFault::OutOfBounds { address: a }))),
                Some(b) => (with_rd(p, rd, sign_ext_byte(b)), Ok(())),
            }
        },
        Instruction::Lh { rd, rs1, imm } => {
            let a = w_add(rv(p, rs1), imm as u32);
            match mem_read_half(p.mem, a) {
                Err(f) => (p, Err(StepError::MemoryFault(f))),
                Ok(h) => (with_rd(p, rd, sign_ext_half(h)), Ok(())),
            }
        },
        Instruction::Lw { rd, rs1, imm } => {
            let a = w_add(rv(p, rs1), imm as u32);
            match mem_read_word(p.mem, a) {
                Err(f) => (p, Err(StepError::MemoryFault(f))),
                Ok(w) => (with_rd(p, rd, w), Ok(())),
            }
        },
        Instruction::Lbu { rd, rs1, imm } => {
            let a = w_add(rv(p, rs1), imm as u32);
            match mem_byte(p.mem, a) {
                None => (p, Err(StepError::MemoryFault(MemoryFault::OutOfBounds { address: a }))),
                Some(b) => (with_rd(p, rd, b as u32), Ok(())),
            }
        },
        Instruction::Lhu { rd, rs1, imm } => {
            let a = w_add(rv(p, rs1), imm as u32);
            match mem_read_half(p.mem, a) {
                Err(f) => (p, Err(StepError::MemoryFault(f))),
                Ok(h) => (with_rd(p, rd, h as u32), Ok(())),
            }
        },
        Instruction::Sb { rs1, rs2, imm } => {
            let a = w_add(rv(p, rs1), imm as u32);
            match mem_with_byte(p.mem, a, (rv(p, rs2) % 0x100) as u8) {
                None => (p, Err(StepError::MemoryFault(MemoryFault::OutOfBounds { address: a }))),
                Some(m) => (ProcModel { pc: w_add(p.pc, 4), mem: m, ..p }, Ok(())),
            }
        },
        Instruction::Sh { rs1, rs2, imm } => {
            let a = w_add(rv(p, rs1), imm as u32);
            let mr = mem_write_half(p.mem, a, (rv(p, rs2) % 0x1_0000) as u16);
            match mr.1 {
                Err(f) => (ProcModel { mem: mr.0, ..p }, Err(StepError::MemoryFault(f))),
                Ok(u) => (ProcModel { pc: w_add(p.pc, 4), mem: mr.0, ..p }, Ok(())),
            }
        },
        Instruction::Sw { rs1, rs2, imm } => {
            let a = w_add(rv(p, rs1), imm as u32);
            let mr = mem_write_word(p.mem, a, rv(p, rs2));
            match mr.1 {
                Err(f) => (ProcModel { mem: mr.0, ..p }, Err(StepError::MemoryFault(f))),
                Ok(u) => (ProcModel { pc: w_add(p.pc, 4), mem: mr.0, ..p }, Ok(())),
            }
        },
        Instruction::Beq { rs1, rs2, imm } => (
            if rv(p, rs1) == rv(p, rs2) {
                jumped(p, w_add(p.pc, imm as u32))
            } else {
                advanced(p)
            },
            Ok(()),
        ),
        Instruction::Bne { rs1, rs2, imm } => (
            if rv(p, rs1) != rv(p, rs2) {
                jumped(p, w_add(p.pc, imm as u32))
            } else {
                advanced(p)
            },
            Ok(()),
        ),
        Instruction::Blt { rs1, rs2, imm } => (
            if as_signed(rv(p, rs1)) < as_signed(rv(p, rs2)) {
                jumped(p, w_add(p.pc, imm as u32))
            } else {
                advanced(p)
            },
            Ok(()),
        ),
        Instruction::Bge { rs1, rs2, imm } => (
            if as_signed(rv(p, rs1)) >= as_signed(rv(p, rs2)) {
                jumped(p, w_add(p.pc, imm as u32))
            } else {
                advanced(p)
            },
            Ok(()),
        ),
        Instruction::Bltu { rs1, rs2, imm } => (
            if rv(p, rs1) < rv(p, rs2) {
                jumped(p, w_add(p.pc, imm as u32))
            } else {
                advanced(p)
            },
            Ok(()),
        ),
        Instruction::Bgeu { rs1, rs2, imm } => (
            if rv(p, rs1) >= rv(p, rs2) {
                jumped(p, w_add(p.pc, imm as u32))
            } else {
                advanced(p)
            },
            Ok(()),
        ),
        Instruction::Lui { rd, imm } => (with_rd(p, rd, imm as u32), Ok(())),
        Instruction::Auipc { rd, imm } => (with_rd(p, rd, w_add(p.pc, imm as u32)), Ok(())),
        Instruction::Jal { rd, imm } => (
            ProcModel {
                pc: w_add(p.pc, imm as u32),
                regs: reg_write(p.regs, rd as int, w_add(p.pc, 4)),
                ..p
            },
            Ok(()),
        ),
        Instruction::Jalr { rd, rs1, imm } => (
            ProcModel {
                pc: w_add(rv(p, rs1), imm as u32) & 0xFFFF_FFFE,
                regs: reg_write(p.regs, rd as int, w_add(p.pc, 4)),
                ..p
            },
            Ok(()),
        ),
        Instruction::Ecall => (p, Err(StepError::Ecall)),
        Instruction::Ebreak => (p, Err(StepError::Ebreak)),
        Instruction::Fence => (advanced(p), Ok(())),
    }
}

/// The word fetched at the program counter: four little-endian bytes read
/// from the text segment at offset `pc - text_base`.
pub open spec fn spec_fetch(p: ProcModel) -> Result<u32, StepError> {
    if p.pc >= p.mem.text_base && p.pc - p.mem.text_base + 4 <= p.mem.text.len() {
        let off = p.pc - p.mem.text_base;
        Ok(
            le_word(
                p.mem.text[off],
                p.mem.text[off + 1],
                p.mem.text[off + 2],
                p.mem.text[off + 3],
            ),
        )
    } else {
        Err(StepError::MemoryFault(MemoryFault::OutOfBounds { address: p.pc }))
    }
}

/// One full fetch/decode/execute step on state `p`. A fetch or decode
/// failure leaves the state unchanged.
pub open spec fn spec_step(p: ProcModel) -> (ProcModel, Result<(), StepError>)
    recommends
        p.regs.len() == 32,
{
    match spec_fetch(p) {
        Err(e) => (p, Err(e)),
        Ok(w) => match spec_decode(w) {
            Err(e) => (p, Err(e)),
            Ok(inst) => spec_execute(p, inst),
        },
    }
}

/// The processor: program counter, 32-entry register file and the owned
/// segmented memory. Register 0 reads as zero and ignores writes.
pub struct Processor {
    pub pc: u32,
    pub registers: Vec<u32>,
    pub memory: Memory,
}

impl View for Processor {
    type V = ProcModel;

    open spec fn view(&self) -> ProcModel {
        ProcModel { pc: self.pc, regs: self.registers@, mem: self.memory@ }
    }
}

impl Processor {
    /// The register file has exactly 32 entries.
    pub open spec fn wf(&self) -> bool {
        self.registers@.len() == 32
    }

    /// A fresh processor: program counter zero, all registers zero, empty
    /// text and data segments, and a zero-filled stack of `stack_size`
    /// bytes.
    pub fn new(text_base: u32, data_base: u32, stack_base: u32, stack_size: usize) -> (r:
        Processor)
        ensures
            r.wf(),
            r@.pc == 0,
            r@.regs == Seq::new(32, |i: int| 0u32),
            r@.mem.text.len() == 0,
            r@.mem.data.len() == 0,
            r@.mem.stack == Seq::new(stack_size as nat, |i: int| 0u8),
            r@.mem.text_base == text_base,
            r@.mem.data_base == data_base,
            r@.mem.stack_base == stack_base,
    {
        let registers = zero_registers();
        let mut stack: Vec<u8> = Vec::new();
        let mut j: usize = 0;
        while j < stack_size
            invariant
                j <= stack_size,
                stack@ =~= Seq::new(j as nat, |k: int| 0u8),
            decreases stack_size - j,
        {
            stack.push(0);
            j = j + 1;
        }
        proof {
            assert(stack@ =~= Seq::new(stack_size as nat, |i: int| 0u8));
        }
        Processor {
            pc: 0,
            registers,
            memory: Memory {
                text: Vec::new(),
                data: Vec::new(),
                stack,
                text_base,
                data_base,
                stack_base,
            },
        }
    }

    /// Replace the text and data segments with fresh program contents,
    /// reset every register to zero, and reset the program counter to the
    /// text base. The stack contents persist.
    pub fn load(&mut self, text: &Vec<u8>, data: &Vec<u8>)
        ensures
            final(self).wf(),
            final(self)@.mem.text == text@,
            final(self)@.mem.data == data@,
            final(self)@.mem.stack == old(self)@.mem.stack,
            final(self)@.mem.text_base == old(self)@.mem.text_base,
            final(self)@.mem.data_base == old(self)@.mem.data_base,
            final(self)@.mem.stack_base == old(self)@.mem.stack_base,
            final(self)@.regs == Seq::new(32, |i: int| 0u32),
            final(self)@.pc == old(self)@.mem.text_base,
    {
        self.memory.text = clone_bytes(text);
        self.memory.data = clone_bytes(data);
        self.registers = zero_registers();
        self.pc = self.memory.text_base;
    }

    /// The value of register `index`; register 0 always reads as zero.
    pub fn read_register(&self, index: usize) -> (r: u32)
        requires
            self.wf(),
            index < 32,
        ensures
            r == reg_read(self@.regs, index as int),
    {
        if index == 0 {
            return 0;
        }
        self.registers[index]
    }

    /// Write `value` to register `index`; a write to register 0 is
    /// discarded.
    pub fn write_register(&mut self, index: usize, value: u32)
        requires
            old(self).wf(),
            index < 32,
        ensures
            final(self).wf(),
            final(self)@ == (ProcModel {
                regs: reg_write(old(self)@.regs, index as int, value),
                ..old(self)@
            }),
    {
        if index == 0 {
            return ;
        }
        self.registers.set(index, value);
    }

    /// The current program counter.
    pub fn pc(&self) -> (r: u32)
        ensures
            r == self@.pc,
    {
        self.pc
    }

    /// Read-only access to the register file.
    pub fn registers(&self) -> (r: &Vec<u32>)
        ensures
            r@ == self@.regs,
    {
        &self.registers
    }

    /// The word at `address`, for external inspection of memory.
    pub fn read_memory_word(&self, address: u32) -> (r: Result<u32, MemoryFault>)
        ensures
            r == mem_read_word(self@.mem, address),
    {
        self.memory.read_word(address)
    }

    /// Fetch the instruction word at the program counter from the text
    /// segment.
    pub fn fetch(&self) -> (r: Result<u32, StepError>)
        ensures
            r == spec_fetch(self@),
    {
        if self.pc >= self.memory.text_base {
            let off: usize = (self.pc - self.memory.text_base) as usize;
            if self.memory.text.len() >= 4 && off <= self.memory.text.len() - 4 {
                let b0 = self.memory.text[off];
                let b1 = self.memory.text[off + 1];
                let b2 = self.memory.text[off + 2];
                let b3 = self.memory.text[off + 3];
                return Ok(
                    (b3 as u32) * 0x100_0000 + (b2 as u32) * 0x1_0000 + (b1 as u32) * 0x100 + (
                    b0 as u32),
                );
            }
        }
        Err(StepError::MemoryFault(MemoryFault::OutOfBounds { address: self.pc }))
    }

    /// Decode a machine word into a typed instruction.
    pub fn decode(&self, memory_instruction: u32) -> (r: Result<Instruction, StepError>)
        ensures
            r == spec_decode(memory_instruction),
            r is Ok ==> inst_wf(r->Ok_0),
    {
        proof {
            lemma_field_bounds(memory_instruction);
            lemma_decode_wf(memory_instruction);
        }
        let opcode = memory_instruction & 0x7F;
        if opcode == 0x33 {
            self.decode_r_type(memory_instruction)
        } else if opcode == 0x13 {
            self.decode_i_type(memory_instruction)
        } else if opcode == 0x03 {
            self.decode_load_type(memory_instruction)
        } else if opcode == 0x23 {
            self.decode_s_type(memory_instruction)
        } else if opcode == 0x63 {
            self.decode_b_type(memory_instruction)
        } else if opcode == 0x6F {
            self.decode_j_type(memory_instruction)
        } else if opcode == 0x67 {
            self.decode_jalr_type(memory_instruction)
        } else if opcode == 0x37 || opcode == 0x17 {
            self.decode_u_type(memory_instruction)
        } else if opcode == 0x73 {
            self.decode_system_type(memory_instruction)
        } else if opcode == 0x0F {
            if memory_instruction == 0x0000_000F {
                Ok(Instruction::Fence)
            } else {
                Err(StepError::IllegalInstruction)
            }
        } else {
            Err(StepError::IllegalInstruction)
        }
    }

    fn decode_r_type(&self, w: u32) -> (r: Result<Instruction, StepError>)
        ensures
            r == spec_decode_r(w),
    {
        proof {
            lemma_field_bounds(w);
        }
        let rd = ((w >> 7) & 0x1F) as usize;
        let rs1 = ((w >> 15) & 0x1F) as usize;
        let rs2 = ((w >> 20) & 0x1F) as usize;
        let funct3 = (w >> 12) & 0x7;
        let funct7 = w >> 25;
        if funct3 == 0x0 && funct7 == 0x00 {
            Ok(Instruction::Add { rd, rs1, rs2 })
        } else if funct3 == 0x0 && funct7 == 0x20 {
            Ok(Instruction::Sub { rd, rs1, rs2 })
        } else if funct3 == 0x4 && funct7 == 0x00 {
            Ok(Instruction::Xor { rd, rs1, rs2 })
        } else if funct3 == 0x6 && funct7 == 0x00 {
            Ok(Instruction::Or { rd, rs1, rs2 })
        } else if funct3 == 0x7 && funct7 == 0x00 {
            Ok(Instruction::And { rd, rs1, rs2 })
        } else if funct3 == 0x1 && funct7 == 0x00 {
            Ok(Instruction::Sll { rd, rs1, rs2 })
        } else if funct3 == 0x5 && funct7 == 0x00 {
            Ok(Instruction::Srl { rd, rs1, rs2 })
        } else if funct3 == 0x5 && funct7 == 0x20 {
            Ok(Instruction::Sra { rd, rs1, rs2 })
        } else if funct3 == 0x2 && funct7 == 0x00 {
            Ok(Instruction::Slt { rd, rs1, rs2 })
        } else if funct3 == 0x3 && funct7 == 0x00 {
            Ok(Instruction::Sltu { rd, rs1, rs2 })
        } else {
            Err(StepError::IllegalInstruction)
        }
    }

    /// Sign-extend the 12-bit field `x` into a signed immediate.
    fn extend12(&self, x: u32) -> (r: i32)
        requires
            x < 0x1000,
        ensures
            r == sign_ext12(x as int),
    {
        if x >= 0x800 {
            (x as i32) - 0x1000
        } else {
            x as i32
        }
    }

    fn decode_i_type(&self, w: u32) -> (r: Result<Instruction, StepError>)
        ensures
            r == spec_decode_i(w),
    {
        proof {
            lemma_field_bounds(w);
        }
        let rd = ((w >> 7) & 0x1F) as usize;
        let rs1 = ((w >> 15) & 0x1F) as usize;
        let imm = self.extend12(w >> 20);
        let funct3 = (w >> 12) & 0x7;
        if funct3 == 0x0 {
            Ok(Instruction::Addi { rd, rs1, imm })
        } else if funct3 == 0x4 {
            Ok(Instruction::Xori { rd, rs1, imm })
        } else if funct3 == 0x6 {
            Ok(Instruction::Ori { rd, rs1, imm })
        } else if funct3 == 0x7 {
            Ok(Instruction::Andi { rd, rs1, imm })
        } else if funct3 == 0x1 || funct3 == 0x5 {
            self.decode_i_shift(w)
        } else if funct3 == 0x2 {
            Ok(Instruction::Slti { rd, rs1, imm })
        } else {
            Ok(Instruction::Sltiu { rd, rs1, imm })
        }
    }

    fn decode_i_shift(&self, w: u32) -> (r: Result<Instruction, StepError>)
        ensures
            r == spec_decode_i_shift(w),
    {
        proof {
            lemma_field_bounds(w);
        }
        let rd = ((w >> 7) & 0x1F) as usize;
        let rs1 = ((w >> 15) & 0x1F) as usize;
        let funct3 = (w >> 12) & 0x7;
        let funct7 = w >> 25;
        let shamt = (w >> 20) & 0x1F;
        if funct3 == 0x1 && funct7 == 0x00 {
            Ok(Instruction::Slli { rd, rs1, shamt })
        } else if funct3 == 0x5 && funct7 == 0x00 {
            Ok(Instruction::Srli { rd, rs1, shamt })
        } else if funct3 == 0x5 && funct7 == 0x20 {
            Ok(Instruction::Srai { rd, rs1, shamt })
        } else {
            Err(StepError::IllegalInstruction)
        }
    }

    fn decode_load_type(&self, w: u32) -> (r: Result<Instruction, StepError>)
        ensures
            r == spec_decode_load(w),
    {
        proof {
            lemma_field_bounds(w);
        }
        let rd = ((w >> 7) & 0x1F) as usize;
        let rs1 = ((w >> 15) & 0x1F) as usize;
        let imm = self.extend12(w >> 20);
        let funct3 = (w >> 12) & 0x7;
        if funct3 == 0x0 {
            Ok(Instruction::Lb { rd, rs1, imm })
        } else if funct3 == 0x1 {
            Ok(Instruction::Lh { rd, rs1, imm })
        } else if funct3 == 0x2 {
            Ok(Instruction::Lw { rd, rs1, imm })
        } else if funct3 == 0x4 {
            Ok(Instruction::Lbu { rd, rs1, imm })
        } else if funct3 == 0x5 {
            Ok(Instruction::Lhu { rd, rs1, imm })
        } else {
            Err(StepError::IllegalInstruction)
        }
    }

    fn decode_s_type(&self, w: u32) -> (r: Result<Instruction, StepError>)
        ensures
            r == spec_decode_s(w),
    {
        proof {
            lemma_field_bounds(w);
        }
        let rs1 = ((w >> 15) & 0x1F) as usize;
        let rs2 = ((w >> 20) & 0x1F) as usize;
        let imm = self.extend12((w >> 25) * 0x20 + ((w >> 7) & 0x1F));
        let funct3 = (w >> 12) & 0x7;
        if funct3 == 0x0 {
            Ok(Instruction::Sb { rs1, rs2, imm })
        } else if funct3 == 0x1 {
            Ok(Instruction::Sh { rs1, rs2, imm })
        } else if funct3 == 0x2 {
            Ok(Instruction::Sw { rs1, rs2, imm })
        } else {
            Err(StepError::IllegalInstruction)
        }
    }

    fn decode_b_type(&self, w: u32) -> (r: Result<Instruction, StepError>)
        ensures
            r == spec_decode_b(w),
    {
        proof {
            lemma_field_bounds(w);
        }
        let rs1 = ((w >> 15) & 0x1F) as usize;
        let rs2 = ((w >> 20) & 0x1F) as usize;
        let combined = (w >> 31) * 0x1000 + ((w >> 7) & 0x1) * 0x800 + ((w >> 25) & 0x3F) * 0x20 + (
        (w >> 8) & 0xF) * 0x2;
        let imm = if combined >= 0x1000 {
            (combined as i32) - 0x2000
        } else {
            combined as i32
        };
        let funct3 = (w >> 12) & 0x7;
        if funct3 == 0x0 {
            Ok(Instruction::Beq { rs1, rs2, imm })
        } else if funct3 == 0x1 {
            Ok(Instruction::Bne { rs1, rs2, imm })
        } else if funct3 == 0x4 {
            Ok(Instruction::Blt { rs1, rs2, imm })
        } else if funct3 == 0x5 {
            Ok(Instruction::Bge { rs1, rs2, imm })
        } else if funct3 == 0x6 {
            Ok(Instruction::Bltu { rs1, rs2, imm })
        } else if funct3 == 0x7 {
            Ok(Instruction::Bgeu { rs1, rs2, imm })
        } else {
            Err(StepError::IllegalInstruction)
        }
    }

    fn decode_u_type(&self, w: u32) -> (r: Result<Instruction, StepError>)
        ensures
            r == spec_decode_u(w),
    {
        let masked = w & 0xFFFF_F000;
        let imm: i32 = if masked >= 0x8000_0000 {
            ((masked as i64) - 0x1_0000_0000) as i32
        } else {
            masked as i32
        };
        let rd = ((w >> 7) & 0x1F) as usize;
        proof {
            lemma_field_bounds(w);
        }
        let opcode = w & 0x7F;
        if opcode == 0x37 {
            Ok(Instruction::Lui { rd, imm })
        } else {
            Ok(Instruction::Auipc { rd, imm })
        }
    }

    fn decode_j_type(&self, w: u32) -> (r: Result<Instruction, StepError>)
        ensures
            r == spec_decode_j(w),
    {
        proof {
            lemma_field_bounds(w);
        }
        let rd = ((w >> 7) & 0x1F) as usize;
        let combined = (w >> 31) * 0x10_0000 + ((w >> 12) & 0xFF) * 0x1000 + ((w >> 20) & 0x1)
            * 0x800 + ((w >> 21) & 0x3FF) * 0x2;
        let imm = if combined >= 0x10_0000 {
            (combined as i32) - 0x20_0000
        } else {
            combined as i32
        };
        Ok(Instruction::Jal { rd, imm })
    }

    fn decode_jalr_type(&self, w: u32) -> (r: Result<Instruction, StepError>)
        ensures
            r == spec_decode_jalr(w),
    {
        proof {
            lemma_field_bounds(w);
        }
        let rd = ((w >> 7) & 0x1F) as usize;
        let rs1 = ((w >> 15) & 0x1F) as usize;
        let imm = self.extend12(w >> 20);
        let funct3 = (w >> 12) & 0x7;
        if funct3 != 0x0 {
            return Err(StepError::IllegalInstruction);
        }
        Ok(Instruction::Jalr { rd, rs1, imm })
    }

    fn decode_system_type(&self, w: u32) -> (r: Result<Instruction, StepError>)
        ensures
            r == spec_decode_system(w),
    {
        if w == 0x0000_0073 {
            Ok(Instruction::Ecall)
        } else if w == 0x0010_0073 {
            Ok(Instruction::Ebreak)
        } else {
            Err(StepError::IllegalInstruction)
        }
    }
}

/// Signed comparison of two register values.
fn signed_lt(a: u32, b: u32) -> (r: bool)
    ensures
        r == (as_signed(a) < as_signed(b)),
{
    let sa: i64 = if a >= 0x8000_0000 {
        (a as i64) - 0x1_0000_0000
    } else {
        a as i64
    };
    let sb: i64 = if b >= 0x8000_0000 {
        (b as i64) - 0x1_0000_0000
    } else {
        b as i64
    };
    sa < sb
}

/// Signed comparison of a register value with an immediate.
fn signed_lt_imm(a: u32, imm: i32) -> (r: bool)
    ensures
        r == (as_signed(a) < imm as int),
{
    let sa: i64 = if a >= 0x8000_0000 {
        (a as i64) - 0x1_0000_0000
    } else {
        a as i64
    };
    sa < (imm as i64)
}

/// Arithmetic right shift.
fn sra_exec(a: u32, sh: u32) -> (r: u32)
    requires
        sh < 32,
    ensures
        r == sra32(a, sh),
{
    if sh == 0 {
        a
    } else if a >= 0x8000_0000 {
        (a >> sh) | (0xFFFF_FFFFu32 << (32 - sh))
    } else {
        a >> sh
    }
}

impl Processor {
    /// Execute one decoded instruction: dispatch on the variant, apply the
    /// wrapping RV32I semantics of `spec_execute`, and commit the next
    /// program counter on success.
    #[verifier::rlimit(100)]
    pub fn execute(&mut self, instruction: Instruction) -> (r: Result<(), StepError>)
        requires
            old(self).wf(),
            inst_wf(instruction),
        ensures
            final(self).wf(),
            (final(self)@, r) == spec_execute(old(self)@, instruction),
    {
        let mut next_pc = self.pc.wrapping_add(4);
        match instruction {
            Instruction::Add { rd, rs1, rs2 } => {
                let result = self.read_register(rs1).wrapping_add(self.read_register(rs2));
                self.write_register(rd, result);
            },
            Instruction::Sub { rd, rs1, rs2 } => {
                let result = self.read_register(rs1).wrapping_sub(self.read_register(rs2));
                self.write_register(rd, result);
            },
            Instruction::Or { rd, rs1, rs2 } => {
                let result = self.read_register(rs1) | self.read_register(rs2);
                self.write_register(rd, result);
            },
            Instruction::And { rd, rs1, rs2 } => {
                let result = self.read_register(rs1) & self.read_register(rs2);
                self.write_register(rd, result);
            },
            Instruction::Xor { rd, rs1, rs2 } => {
                let result = self.read_register(rs1) ^ self.read_register(rs2);
                self.write_register(rd, result);
            },
            Instruction::Sll { rd, rs1, rs2 } => {
                let v2 = self.read_register(rs2);
                proof {
                    lemma_field_bounds(v2);
                }
                let shamt = v2 & 0x1F;
                let result = self.read_register(rs1) << shamt;
                self.write_register(rd, result);
            },
            Instruction::Srl { rd, rs1, rs2 } => {
                let v2 = self.read_register(rs2);
                proof {
                    lemma_field_bounds(v2);
                }
                let shamt = v2 & 0x1F;
                let result = self.read_register(rs1) >> shamt;
                self.write_register(rd, result);
            },
            Instruction::Sra { rd, rs1, rs2 } => {
                let v2 = self.read_register(rs2);
                proof {
                    lemma_field_bounds(v2);
                }
                let shamt = v2 & 0x1F;
                let result = sra_exec(self.read_register(rs1), shamt);
                self.write_register(rd, result);
            },
            Instruction::Slt { rd, rs1, rs2 } => {
                let result: u32 = if signed_lt(self.read_register(rs1), self.read_register(rs2)) {
                    1
                } else {
                    0
                };
                self.write_register(rd, result);
            },
            Instruction::Sltu { rd, rs1, rs2 } => {
                let result: u32 = if self.read_register(rs1) < self.read_register(rs2) {
                    1
                } else {
                    0
                };
                self.write_register(rd, result);
            },
            Instruction::Addi { rd, rs1, imm } => {
                let result = self.read_register(rs1).wrapping_add(imm as u32);
                self.write_register(rd, result);
            },
            Instruction::Xori { rd, rs1, imm } => {
                let result = self.read_register(rs1) ^ (imm as u32);
                self.write_register(rd, result);
            },
            Instruction::Ori { rd, rs1, imm } => {
                let result = self.read_register(rs1) | (imm as u32);
                self.write_register(rd, result);
            },
            Instruction::Andi { rd, rs1, imm } => {
                let result = self.read_register(rs1) & (imm as u32);
                self.write_register(rd, result);
            },
            Instruction::Slli { rd, rs1, shamt } => {
                let result = self.read_register(rs1) << shamt;
                self.write_register(rd, result);
            },
            Instruction::Srli { rd, rs1, shamt } => {
                let result = self.read_register(rs1) >> shamt;
                self.write_register(rd, result);
            },
            Instruction::Srai { rd, rs1, shamt } => {
                let result = sra_exec(self.read_register(rs1), shamt);
                self.write_register(rd, result);
            },
            Instruction::Slti { rd, rs1, imm } => {
                let result: u32 = if signed_lt_imm(self.read_register(rs1), imm) {
                    1
                } else {
                    0
                };
                self.write_register(rd, result);
            },
            Instruction::Sltiu { rd, rs1, imm } => {
                let result: u32 = if self.read_register(rs1) < (imm as u32) {
                    1
                } else {
                    0
                };
                self.write_register(rd, result);
            },
            Instruction::Lb { .. } | Instruction::Lh { .. } | Instruction::Lw { .. }
            | Instruction::Lbu { .. } | Instruction::Lhu { .. } => {
                return self.execute_load(instruction);
            },
            Instruction::Sb { .. } | Instruction::Sh { .. } | Instruction::Sw { .. } => {
                return self.execute_store(instruction);
            },
            Instruction::Beq { .. } | Instruction::Bne { .. } | Instruction::Blt { .. }
            | Instruction::Bge { .. } | Instruction::Bltu { .. } | Instruction::Bgeu { .. } => {
                return self.execute_branch(instruction);
            },
            Instruction::Jal { rd, imm } => {
                self.write_register(rd, self.pc.wrapping_add(4));
                next_pc = self.pc.wrapping_add(imm as u32);
            },
            Instruction::Jalr { rd, rs1, imm } => {
                let target = self.read_register(rs1).wrapping_add(imm as u32) & 0xFFFF_FFFE;
                self.write_register(rd, self.pc.wrapping_add(4));
                next_pc = target;
            },
            Instruction::Lui { rd, imm } => {
                self.write_register(rd, imm as u32);
            },
            Instruction::Auipc { rd, imm } => {
                self.write_register(rd, self.pc.wrapping_add(imm as u32));
            },
            Instruction::Ecall => {
                return Err(StepError::Ecall);
            },
            Instruction::Ebreak => {
                return Err(StepError::Ebreak);
            },
            Instruction::Fence => {},
        }
        self.pc = next_pc;
        Ok(())
    }

    /// Execute one load instruction.
    #[verifier::rlimit(100)]
    fn execute_load(&mut self, instruction: Instruction) -> (r: Result<(), StepError>)
        requires
            old(self).wf(),
            inst_wf(instruction),
            instruction is Lb || instruction is Lh || instruction is Lw || instruction is Lbu
                || instruction is Lhu,
        ensures
            final(self).wf(),
            (final(self)@, r) == spec_execute(old(self)@, instruction),
    {
        let mut next_pc = self.pc.wrapping_add(4);
        match instruction {
            Instruction::Lb { rd, rs1, imm } => {
                let address = self.read_register(rs1).wrapping_add(imm as u32);
                let value = match self.memory.read_byte(address) {
                    Ok(v) => v,
                    Err(e) => {
                        return Err(StepError::MemoryFault(e));
                    },
                };
                let ext: u32 = if value >= 0x80 {
                    (value as u32) + 0xFFFF_FF00
                } else {
                    value as u32
                };
                self.write_register(rd, ext);
            },
            Instruction::Lh { rd, rs1, imm } => {
                let address = self.read_register(rs1).wrapping_add(imm as u32);
                let value = match self.memory.read_half(address) {
                    Ok(v) => v,
                    Err(e) => {
                        return Err(StepError::MemoryFault(e));
                    },
                };
                let ext: u32 = if value >= 0x8000 {
                    (value as u32) + 0xFFFF_0000
                } else {
                    value as u32
                };
                self.write_register(rd, ext);
            },
            Instruction::Lw { rd, rs1, imm } => {
                let address = self.read_register(rs1).wrapping_add(imm as u32);
                let value = match self.memory.read_word(address) {
                    Ok(v) => v,
                    Err(e) => {
                        return Err(StepError::MemoryFault(e));
                    },
                };
                self.write_register(rd, value);
            },
            Instruction::Lbu { rd, rs1, imm } => {
                let address = self.read_register(rs1).wrapping_add(imm as u32);
                let value = match self.memory.read_byte(address) {
                    Ok(v) => v,
                    Err(e) => {
                        return Err(StepError::MemoryFault(e));
                    },
                };
                self.write_register(rd, value as u32);
            },
            Instruction::Lhu { rd, rs1, imm } => {
                let address = self.read_register(rs1).wrapping_add(imm as u32);
                let value = match self.memory.read_half(address) {
                    Ok(v) => v,
                    Err(e) => {
                        return Err(StepError::MemoryFault(e));
                    },
                };
                self.write_register(rd, value as u32);
            },
            _ => {
                return Err(StepError::IllegalInstruction);
            },
        }
        self.pc = next_pc;
        Ok(())
    }

    /// Execute one store instruction.
    #[verifier::rlimit(100)]
    fn execute_store(&mut self, instruction: Instruction) -> (r: Result<(), StepError>)
        requires
            old(self).wf(),
            inst_wf(instruction),
            instruction is Sb || instruction is Sh || instruction is Sw,
        ensures
            final(self).wf(),
            (final(self)@, r) == spec_execute(old(self)@, instruction),
    {
        let mut next_pc = self.pc.wrapping_add(4);
        match instruction {
            Instruction::Sb { rs1, rs2, imm } => {
                let address = self.read_register(rs1).wrapping_add(imm as u32);
                let value: u8 = (self.read_register(rs2) % 0x100) as u8;
                match self.memory.write_byte(address, value) {
                    Ok(_) => {},
                    Err(e) => {
                        return Err(StepError::MemoryFault(e));
                    },
                }
            },
            Instruction::Sh { rs1, rs2, imm } => {
                let address = self.read_register(rs1).wrapping_add(imm as u32);
                let value: u16 = (self.read_register(rs2) % 0x1_0000) as u16;
                match self.memory.write_half(address, value) {
                    Ok(_) => {},
                    Err(e) => {
                        return Err(StepError::MemoryFault(e));
                    },
                }
            },
            Instruction::Sw { rs1, rs2, imm } => {
                let address = self.read_register(rs1).wrapping_add(imm as u32);
                let value = self.read_register(rs2);
                match self.memory.write_word(address, value) {
                    Ok(_) => {},
                    Err(e) => {
                        return Err(StepError::MemoryFault(e));
                    },
                }
            },
            _ => {
                return Err(StepError::IllegalInstruction);
            },
        }
        self.pc = next_pc;
        Ok(())
    }

    /// Execute one branch instruction.
    #[verifier::rlimit(100)]
    fn execute_branch(&mut self, instruction: Instruction) -> (r: Result<(), StepError>)
        requires
            old(self).wf(),
            inst_wf(instruction),
            instruction is Beq || instruction is Bne || instruction is Blt || instruction is Bge
                || instruction is Bltu || instruction is Bgeu,
        ensures
            final(self).wf(),
            (final(self)@, r) == spec_execute(old(self)@, instruction),
    {
        let mut next_pc = self.pc.wrapping_add(4);
        match instruction {
            Instruction::Beq { rs1, rs2, imm } => {
                if self.read_register(rs1) == self.read_register(rs2) {
                    next_pc = self.pc.wrapping_add(imm as u32);
                }
            },
            Instruction::Bne { rs1, rs2, imm } => {
                if self.read_register(rs1) != self.read_register(rs2) {
                    next_pc = self.pc.wrapping_add(imm as u32);
                }
            },
            Instruction::Blt { rs1, rs2, imm } => {
                if signed_lt(self.read_register(rs1), self.read_register(rs2)) {
                    next_pc = self.pc.wrapping_add(imm as u32);
                }
            },
            Instruction::Bge { rs1, rs2, imm } => {
                if !signed_lt(self.read_register(rs1), self.read_register(rs2)) {
                    next_pc = self.pc.wrapping_add(imm as u32);
                }
            },
            Instruction::Bltu { rs1, rs2, imm } => {
                if self.read_register(rs1) < self.read_register(rs2) {
                    next_pc = self.pc.wrapping_add(imm as u32);
                }
            },
            Instruction::Bgeu { rs1, rs2, imm } => {
                if self.read_register(rs1) >= self.read_register(rs2) {
                    next_pc = self.pc.wrapping_add(imm as u32);
                }
            },
            _ => {
                return Err(StepError::IllegalInstruction);
            },
        }
        self.pc = next_pc;
        Ok(())
    }

    /// One fetch/decode/execute cycle. A fetch failure reports a memory
    /// fault at the program counter; an undecodable word reports an
    /// illegal instruction; both leave the state unchanged.
    pub fn step(&mut self) -> (r: Result<(), StepError>)
        requires
            old(self).wf(),
        ensures
            final(self).wf(),
            (final(self)@, r) == spec_step(old(self)@),
    {
        let memory_instruction = match self.fetch() {
            Ok(w) => w,
            Err(e) => {
                return Err(e);
            },
        };
        let instruction = match self.decode(memory_instruction) {
            Ok(i) => i,
            Err(e) => {
                return Err(e);
            },
        };
        self.execute(instruction)
    }
}

/// The destination register of an instruction, if it has one.
pub open spec fn rd_of(inst: Instruction) -> Option<usize> {
    match inst {
        Instruction::Add { rd, .. } => Some(rd),
        Instruction::Sub { rd, .. } => Some(rd),
        Instruction::And { rd, .. } => Some(rd),
        Instruction::Or { rd, .. } => Some(rd),
        Instruction::Xor { rd, .. } => Some(rd),
        Instruction::Sll { rd, .. } => Some(rd),
        Instruction::Srl { rd, .. } => Some(rd),
        Instruction::Sra { rd, .. } => Some(rd),
        Instruction::Slt { rd, .. } => Some(rd),
        Instruction::Sltu { rd, .. } => Some(rd),
        Instruction::Addi { rd, .. } => Some(rd),
        Instruction::Andi { rd, .. } => Some(rd),
        Instruction::Ori { rd, .. } => Some(rd),
        Instruction::Xori { rd, .. } => Some(rd),
        Instruction::Slli { rd, .. } => Some(rd),
        Instruction::Srli { rd, .. } => Some(rd),
        Instruction::Srai { rd, .. } => Some(rd),
        Instruction::Slti { rd, .. } => Some(rd),
        Instruction::Sltiu { rd, .. } => Some(rd),
        Instruction::Lb { rd, .. } => Some(rd),
        Instruction::Lh { rd, .. } => Some(rd),
        Instruction::Lw { rd, .. } => Some(rd),
        Instruction::Lbu { rd, .. } => Some(rd),
        Instruction::Lhu { rd, .. } => Some(rd),
        Instruction::Sb { .. } => None,
        Instruction::Sh { .. } => None,
        Instruction::Sw { .. } => None,
        Instruction::Beq { .. } => None,
        Instruction::Bne { .. } => None,
        Instruction::Blt { .. } => None,
        Instruction::Bge { .. } => None,
        Instruction::Bltu { .. } => None,
        Instruction::Bgeu { .. } => None,
        Instruction::Lui { rd, .. } => Some(rd),
        Instruction::Auipc { rd, .. } => Some(rd),
        Instruction::Jal { rd, .. } => Some(rd),
        Instruction::Jalr { rd, .. } => Some(rd),
        Instruction::Ecall => None,
        Instruction::Ebreak => None,
        Instruction::Fence => None,
    }
}

/// Is the instruction a branch or jump, that is, one whose successful
/// execution may set the program counter to something other than `pc + 4`?
pub open spec fn is_control_flow(inst: Instruction) -> bool {
    match inst {
        Instruction::Beq { .. } => true,
        Instruction::Bne { .. } => true,
        Instruction::Blt { .. } => true,
        Instruction::Bge { .. } => true,
        Instruction::Bltu { .. } => true,
        Instruction::Bgeu { .. } => true,
        Instruction::Jal { .. } => true,
        Instruction::Jalr { .. } => true,
        _ => false,
    }
}

/// Register 0 reads as zero in every register file, before and after any
/// step.
pub proof fn lemma_x0_reads_zero(regs: Seq<u32>)
    ensures
        reg_read(regs, 0) == 0,
{
}

/// An instruction whose destination register is `x0`, or which has no
/// destination register, leaves the whole register file unchanged, whatever
/// its result; only the program counter and the memory may differ.
#[verifier::rlimit(100)]
pub proof fn lemma_rd_zero_preserves_registers(p: ProcModel, inst: Instruction)
    requires
        rd_of(inst) == Some(0usize) || rd_of(inst) is None,
    ensures
        spec_execute(p, inst).0.regs == p.regs,
{
}

/// A successful execution of an instruction that is no branch or jump
/// advances the program counter by exactly four.
#[verifier::rlimit(100)]
pub proof fn lemma_plain_execute_advances_pc(p: ProcModel, inst: Instruction)
    requires
        !is_control_flow(inst),
        spec_execute(p, inst).1 is Ok,
    ensures
        spec_execute(p, inst).0.pc == w_add(p.pc, 4),
{
}

/// A successful `step` whose fetched word decodes to an instruction that is
/// no branch or jump advances the program counter by exactly four.
pub proof fn lemma_plain_step_advances_pc(p: ProcModel)
    requires
        spec_step(p).1 is Ok,
        (match spec_fetch(p) {
            Ok(w) => match spec_decode(w) {
                Ok(inst) => !is_control_flow(inst),
                Err(e) => false,
            },
            Err(e) => false,
        }),
    ensures
        spec_step(p).0.pc == w_add(p.pc, 4),
{
    let w = spec_fetch(p)->Ok_0;
    let inst = spec_decode(w)->Ok_0;
    lemma_plain_execute_advances_pc(p, inst);
}

/// A fresh register file of 32 zeroed entries.
fn zero_registers() -> (r: Vec<u32>)
    ensures
        r@ == Seq::new(32, |i: int| 0u32),
{
    let mut registers: Vec<u32> = Vec::new();
    let mut i: usize = 0;
    while i < 32
        invariant
            i <= 32,
            registers@ =~= Seq::new(i as nat, |j: int| 0u32),
        decreases 32 - i,
    {
        registers.push(0);
        i = i + 1;
    }
    proof {
        assert(registers@ =~= Seq::new(32, |i: int| 0u32));
    }
    registers
}

/// Copy a byte vector element by element.
fn clone_bytes(src: &Vec<u8>) -> (r: Vec<u8>)
    ensures
        r@ == src@,
{
    let mut v: Vec<u8> = Vec::new();
    let mut i: usize = 0;
    while i < src.len()
        invariant
            i <= src@.len(),
            v@ =~= src@.subrange(0, i as int),
        decreases src@.len() - i,
    {
        v.push(src[i]);
        i = i + 1;
    }
    proof {
        assert(v@ =~= src@);
    }
    v
}

} // verus!
