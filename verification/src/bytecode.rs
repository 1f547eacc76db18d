//! Machine instructions, their 16-bit encoding, and disassembly.

use vstd::prelude::*;
use vstd::string::*;
use crate::text::{decimal, hex4, push_decimal, push_hex4};

verus! {

/// An operation code that is not part of the instruction set, or a mnemonic
/// that names no instruction. The field holds what was found.
#[derive(Debug, Clone)]
pub struct InvalidInstruction(pub String);

impl InvalidInstruction {
    /// The text of the error message.
    pub open spec fn message_text(self) -> Seq<char> {
        "Invalid instruction: '"@ + self.0@ + "'."@
    }

    /// Returns the error message.
    pub fn message(&self) -> (s: String)
        ensures
            s@ == self.message_text(),
    {
        let mut s = String::from_str("Invalid instruction: '");
        s.append(self.0.as_str());
        s.append("'.");
        s
    }
}

/// The condition tested by a branch, a 2-bit field.
#[derive(Debug, Clone, Copy, PartialEq, Eq, Structural)]
pub enum Condition {
    Equal,
    NotEqual,
    LessThan,
    GreaterThanEqual,
}

impl Condition {
    /// The 2-bit value of the condition field.
    pub open spec fn bits(self) -> u16 {
        match self {
            Condition::Equal => 0b00,
            Condition::NotEqual => 0b01,
            Condition::LessThan => 0b10,
            Condition::GreaterThanEqual => 0b11,
        }
    }

    /// The condition with the given field value, for values below four.
    pub open spec fn from_bits(bits: u16) -> Condition {
        if bits == 0b00 {
            Condition::Equal
        } else if bits == 0b01 {
            Condition::NotEqual
        } else if bits == 0b10 {
            Condition::LessThan
        } else {
            Condition::GreaterThanEqual
        }
    }

    /// The mnemonic of the branch that tests this condition.
    pub open spec fn mnemonic(self) -> Seq<char> {
        match self {
            Condition::Equal => "beq"@,
            Condition::NotEqual => "bne"@,
            Condition::LessThan => "blt"@,
            Condition::GreaterThanEqual => "bge"@,
        }
    }

    /// Returns the 2-bit value of the condition field.
    pub fn code(self) -> (r: u16)
        ensures
            r == self.bits(),
            r < 4,
    {
        match self {
            Condition::Equal => 0b00,
            Condition::NotEqual => 0b01,
            Condition::LessThan => 0b10,
            Condition::GreaterThanEqual => 0b11,
        }
    }

    /// Returns the condition with the given field value.
    pub fn from_code(bits: u16) -> (c: Condition)
        requires
            bits < 4,
        ensures
            c == Condition::from_bits(bits),
            c.bits() == bits,
    {
        if bits == 0b00 {
            Condition::Equal
        } else if bits == 0b01 {
            Condition::NotEqual
        } else if bits == 0b10 {
            Condition::LessThan
        } else {
            Condition::GreaterThanEqual
        }
    }

    /// Returns the mnemonic of the branch that tests this condition.
    pub fn name(self) -> (s: &'static str)
        ensures
            s@ == self.mnemonic(),
    {
        match self {
            Condition::Equal => "beq",
            Condition::NotEqual => "bne",
            Condition::LessThan => "blt",
            Condition::GreaterThanEqual => "bge",
        }
    }
}

/// The operation codes of the machine, each a 5-bit value.
#[derive(Debug, Clone, Copy, PartialEq, Eq, Structural)]
pub enum Opcode {
    Add,
    Sub,
    Or,
    And,
    Xor,
    Not,
    Shl,
    Shr,
    Lw,
    Sw,
    Branch,
    Jump,
    JumpReg,
    Li,
}

impl Opcode {
    /// The 5-bit value of the operation code.
    pub open spec fn bits(self) -> u16 {
        match self {
            Opcode::Add => 0b00000,
            Opcode::Sub => 0b00001,
            Opcode::Or => 0b00010,
            Opcode::And => 0b00011,
            Opcode::Xor => 0b00100,
            Opcode::Not => 0b00101,
            Opcode::Shl => 0b00110,
            Opcode::Shr => 0b00111,
            Opcode::Lw => 0b10000,
            Opcode::Sw => 0b11000,
            Opcode::Branch => 0b11100,
            Opcode::Jump => 0b11101,
            Opcode::JumpReg => 0b11111,
            Opcode::Li => 0b10100,
        }
    }

    /// The operation code with the given value, if the set has one.
    pub open spec fn from_bits(bits: u16) -> Option<Opcode> {
        if bits == 0b00000 {
            Some(Opcode::Add)
        } else if bits == 0b00001 {
            Some(Opcode::Sub)
        } else if bits == 0b00010 {
            Some(Opcode::Or)
        } else if bits == 0b00011 {
            Some(Opcode::And)
        } else if bits == 0b00100 {
            Some(Opcode::Xor)
        } else if bits == 0b00101 {
            Some(Opcode::Not)
        } else if bits == 0b00110 {
            Some(Opcode::Shl)
        } else if bits == 0b00111 {
            Some(Opcode::Shr)
        } else if bits == 0b10000 {
            Some(Opcode::Lw)
        } else if bits == 0b11000 {
            Some(Opcode::Sw)
        } else if bits == 0b11100 {
            Some(Opcode::Branch)
        } else if bits == 0b11101 {
            Some(Opcode::Jump)
        } else if bits == 0b11111 {
            Some(Opcode::JumpReg)
        } else if bits == 0b10100 {
            Some(Opcode::Li)
        } else {
            None
        }
    }

    /// Whether this is one of the eight arithmetic and logic operations.
    pub open spec fn is_alu(self) -> bool {
        self.bits() < 8
    }

    /// Whether this is a load or a store.
    pub open spec fn is_mem(self) -> bool {
        self == Opcode::Lw || self == Opcode::Sw
    }

    /// The printed name of the operation code.
    pub open spec fn name_text(self) -> Seq<char> {
        match self {
            Opcode::Add => "add"@,
            Opcode::Sub => "sub"@,
            Opcode::Or => "or"@,
            Opcode::And => "and"@,
            Opcode::Xor => "xor"@,
            Opcode::Not => "not"@,
            Opcode::Shl => "shl"@,
            Opcode::Shr => "shr"@,
            Opcode::Lw => "lw"@,
            Opcode::Sw => "sw"@,
            Opcode::Branch => "branch"@,
            Opcode::Jump => "jmp(i)"@,
            Opcode::JumpReg => "jmp(r)"@,
            Opcode::Li => "li"@,
        }
    }

    /// Returns the 5-bit value of the operation code.
    pub fn code(self) -> (r: u16)
        ensures
            r == self.bits(),
            r < 32,
    {
        match self {
            Opcode::Add => 0b00000,
            Opcode::Sub => 0b00001,
            Opcode::Or => 0b00010,
            Opcode::And => 0b00011,
            Opcode::Xor => 0b00100,
            Opcode::Not => 0b00101,
            Opcode::Shl => 0b00110,
            Opcode::Shr => 0b00111,
            Opcode::Lw => 0b10000,
            Opcode::Sw => 0b11000,
            Opcode::Branch => 0b11100,
            Opcode::Jump => 0b11101,
            Opcode::JumpReg => 0b11111,
            Opcode::Li => 0b10100,
        }
    }

    /// Returns the printed name of the operation code.
    pub fn name(self) -> (s: &'static str)
        ensures
            s@ == self.name_text(),
    {
        match self {
            Opcode::Add => "add",
            Opcode::Sub => "sub",
            Opcode::Or => "or",
            Opcode::And => "and",
            Opcode::Xor => "xor",
            Opcode::Not => "not",
            Opcode::Shl => "shl",
            Opcode::Shr => "shr",
            Opcode::Lw => "lw",
            Opcode::Sw => "sw",
            Opcode::Branch => "branch",
            Opcode::Jump => "jmp(i)",
            Opcode::JumpReg => "jmp(r)",
            Opcode::Li => "li",
        }
    }
}

/// Every operation code is found again from its value, and no other value
/// names an operation code.
pub proof fn lemma_opcode_bits(op: Opcode, bits: u16)
    ensures
        Opcode::from_bits(op.bits()) == Some(op),
        op.bits() < 32,
        Opcode::from_bits(bits) == Some(op) ==> op.bits() == bits,
{
}

/// The text of the message for a value that is no operation code.
pub open spec fn unknown_opcode_text(opcode: u16) -> Seq<char> {
    "Unknown opcode: 0x"@ + hex4(opcode)
}

/// Returns the operation code with the given 5-bit value, or an error that
/// names the value when the set has no such code.
pub fn opcode_to_enum(opcode: u16) -> (r: Result<Opcode, InvalidInstruction>)
    ensures
        match r {
            Ok(op) => Opcode::from_bits(opcode) == Some(op),
            Err(e) => Opcode::from_bits(opcode) is None && e.0@ == unknown_opcode_text(opcode),
        },
{
    match opcode {
        0b00000 => Ok(Opcode::Add),
        0b00001 => Ok(Opcode::Sub),
        0b00010 => Ok(Opcode::Or),
        0b00011 => Ok(Opcode::And),
        0b00100 => Ok(Opcode::Xor),
        0b00101 => Ok(Opcode::Not),
        0b00110 => Ok(Opcode::Shl),
        0b00111 => Ok(Opcode::Shr),
        0b10000 => Ok(Opcode::Lw),
        0b11000 => Ok(Opcode::Sw),
        0b11100 => Ok(Opcode::Branch),
        0b11101 => Ok(Opcode::Jump),
        0b11111 => Ok(Opcode::JumpReg),
        0b10100 => Ok(Opcode::Li),
        _ => {
            let mut text = String::from_str("Unknown opcode: 0x");
            push_hex4(&mut text, opcode);
            Err(InvalidInstruction(text))
        },
    }
}

/// A machine instruction with all of its fields resolved to numbers.
#[derive(Debug, Clone, Copy, PartialEq, Eq, Structural)]
pub enum Instruction {
    /// The instruction that does nothing; its word is all zeros.
    Nop,
    /// `Alu(opcode, rd, rt, rs)`: destination, second operand, low source.
    Alu(Opcode, u16, u16, u16),
    /// `Mem(opcode, rd, rt, offset)`: data register, base register, offset.
    Mem(Opcode, u16, u16, u16),
    /// `Branch(condition, offset)`.
    Branch(Condition, u16),
    /// `Jump(offset)`.
    Jump(u16),
    /// `JumpReg(register)`.
    JumpReg(u16),
    /// `Li(register, value)`.
    Li(u16, u16),
}

impl Instruction {
    /// Whether every numeric field fits the width of its place in the word.
    pub open spec fn fits(self) -> bool {
        match self {
            Instruction::Nop => true,
            Instruction::Alu(_, rd, rt, rs) => rd < 16 && rt < 16 && rs < 8,
            Instruction::Mem(_, rd, rt, off) => rd < 16 && rt < 16 && off < 8,
            Instruction::Branch(_, off) => off < 512,
            Instruction::Jump(off) => off < 2048,
            Instruction::JumpReg(reg) => reg < 16,
            Instruction::Li(reg, val) => reg < 8 && val < 256,
        }
    }

    /// Whether the fields fit and the operation code belongs to the class of
    /// the instruction.
    pub open spec fn well_formed(self) -> bool {
        &&& self.fits()
        &&& self matches Instruction::Alu(op, _, _, _) ==> op.is_alu()
        &&& self matches Instruction::Mem(op, _, _, _) ==> op.is_mem()
    }
}

/// The word `[opcode:5][high:3][mid:4][low:4]`: the operation code in bits
/// 15 to 11, `high` in bits 10 to 8, `mid` in bits 7 to 4, `low` in bits 3 to 0.
pub open spec fn pack(opcode: u16, high: u16, mid: u16, low: u16) -> u16 {
    (opcode << 11) | (high << 8) | (mid << 4) | low
}

/// The word of an instruction.
///
/// Arithmetic and memory instructions are packed as by [`pack`], with the low
/// source register or the offset in the 3-bit place. A branch is
/// `[opcode:5][condition:2][offset:9]`, a jump `[opcode:5][offset:11]`, a load
/// of an immediate `[opcode:5][register:3][value:8]`. A jump through a register
/// is `[opcode:5][register:4]` followed by seven zero bits.
pub open spec fn encode_word(instr: Instruction) -> u16 {
    match instr {
        Instruction::Nop => 0,
        Instruction::Alu(op, rd, rt, rs) => pack(op.bits(), rs, rt, rd),
        Instruction::Mem(op, rd, rt, off) => pack(op.bits(), off, rt, rd),
        Instruction::Branch(cond, off) => (Opcode::Branch.bits() << 11) | (cond.bits() << 9) | off,
        Instruction::Jump(off) => (Opcode::Jump.bits() << 11) | off,
        Instruction::JumpReg(reg) => (Opcode::JumpReg.bits() << 11) | (reg << 7),
        Instruction::Li(reg, val) => (Opcode::Li.bits() << 11) | (reg << 8) | val,
    }
}

/// The instruction that a word stands for, if its top five bits are an
/// operation code. The fields are read from the places that [`encode_word`]
/// writes them to.
pub open spec fn decode_word(word: u16) -> Option<Instruction> {
    match Opcode::from_bits(word >> 11) {
        None => None,
        Some(op) => Some(
            match op {
                Opcode::Lw | Opcode::Sw => Instruction::Mem(
                    op,
                    word & 0xf,
                    (word >> 4) & 0xf,
                    (word >> 8) & 0x7,
                ),
                Opcode::Branch => Instruction::Branch(
                    Condition::from_bits((word >> 9) & 0x3),
                    word & 0x1ff,
                ),
                Opcode::Jump => Instruction::Jump(word & 0x7ff),
                Opcode::JumpReg => Instruction::JumpReg((word >> 7) & 0xf),
                Opcode::Li => Instruction::Li((word >> 8) & 0x7, word & 0xff),
                _ => Instruction::Alu(op, word & 0xf, (word >> 4) & 0xf, (word >> 8) & 0x7),
            },
        ),
    }
}

/// Packs an arithmetic or logic instruction into its word.
pub fn encode_alu_instruction(opcode: Opcode, rd: u16, rt: u16, rs: u16) -> (word: u16)
    requires
        rd < 16,
        rt < 16,
        rs < 8,
    ensures
        word == pack(opcode.bits(), rs, rt, rd),
{
    (opcode.code() << 11) | (rs << 8) | (rt << 4) | rd
}

/// Packs a load or a store into its word.
pub fn encode_mem_instruction(opcode: Opcode, rd: u16, rt: u16, off: u16) -> (word: u16)
    requires
        rd < 16,
        rt < 16,
        off < 8,
    ensures
        word == pack(opcode.bits(), off, rt, rd),
{
    (opcode.code() << 11) | (off << 8) | (rt << 4) | rd
}

/// Packs an instruction whose fields fit into its 16-bit word.
pub fn encode_instruction(instr: Instruction) -> (word: u16)
    requires
        instr.fits(),
    ensures
        word == encode_word(instr),
{
    match instr {
        Instruction::Nop => 0,
        Instruction::Alu(opcode, rd, rt, rs) => encode_alu_instruction(opcode, rd, rt, rs),
        Instruction::Mem(opcode, rd, rt, off) => encode_mem_instruction(opcode, rd, rt, off),
        Instruction::Branch(cond, off) => (Opcode::Branch.code() << 11) | (cond.code() << 9) | off,
        Instruction::Jump(off) => (Opcode::Jump.code() << 11) | off,
        Instruction::JumpReg(reg) => (Opcode::JumpReg.code() << 11) | (reg << 7),
        Instruction::Li(reg, val) => (Opcode::Li.code() << 11) | (reg << 8) | val,
    }
}

/// Unpacks a word into the instruction it stands for, or fails when its top
/// five bits are no operation code.
pub fn decode(word: u16) -> (r: Result<Instruction, InvalidInstruction>)
    ensures
        match r {
            Ok(instr) => decode_word(word) == Some(instr) && instr.well_formed(),
            Err(e) => decode_word(word) is None && e.0@ == unknown_opcode_text(word >> 11),
        },
{
    let rs = (word >> 8) & 0x7;
    let rt = (word >> 4) & 0xf;
    let rd = word & 0xf;
    let cond = (word >> 9) & 0x3;
    assert(((word >> 8) & 0x7) < 8 && ((word >> 4) & 0xf) < 16 && (word & 0xf) < 16 && ((word
        >> 9) & 0x3) < 4 && (word & 0x1ff) < 512 && (word & 0x7ff) < 2048 && ((word >> 7) & 0xf)
        < 16 && (word & 0xff) < 256) by (bit_vector);
    match opcode_to_enum(word >> 11) {
        Err(e) => Err(e),
        Ok(op) => Ok(
            match op {
                Opcode::Lw | Opcode::Sw => Instruction::Mem(op, rd, rt, rs),
                Opcode::Branch => Instruction::Branch(Condition::from_code(cond), word & 0x1ff),
                Opcode::Jump => Instruction::Jump(word & 0x7ff),
                Opcode::JumpReg => Instruction::JumpReg((word >> 7) & 0xf),
                Opcode::Li => Instruction::Li(rs, word & 0xff),
                _ => Instruction::Alu(op, rd, rt, rs),
            },
        ),
    }
}

/// The line of text that stands for an instruction: its mnemonic, then its
/// operands separated by commas, registers written with a leading `r` and
/// every number in decimal. A branch is named after its condition.
pub open spec fn render(instr: Instruction) -> Seq<char> {
    match instr {
        Instruction::Nop => "nop"@,
        Instruction::Alu(op, rd, rt, rs) => op.name_text() + " r"@ + decimal(rd as nat) + ", r"@
            + decimal(rt as nat) + ", r"@ + decimal(rs as nat),
        Instruction::Mem(op, rd, rt, off) => op.name_text() + " r"@ + decimal(rd as nat) + ", r"@
            + decimal(rt as nat) + ", "@ + decimal(off as nat),
        Instruction::Branch(cond, off) => cond.mnemonic() + " "@ + decimal(off as nat),
        Instruction::Jump(off) => "jmp "@ + decimal(off as nat),
        Instruction::JumpReg(reg) => "jmp r"@ + decimal(reg as nat),
        Instruction::Li(reg, val) => "li r"@ + decimal(reg as nat) + ", "@ + decimal(val as nat),
    }
}

impl Instruction {
    /// Returns the line of text that stands for the instruction.
    pub fn to_text(&self) -> (s: String)
        ensures
            s@ == render(*self),
    {
        match *self {
            Instruction::Nop => String::from_str("nop"),
            Instruction::Alu(op, rd, rt, rs) => {
                let mut s = String::from_str(op.name());
                s.append(" r");
                push_decimal(&mut s, rd as u64);
                s.append(", r");
                push_decimal(&mut s, rt as u64);
                s.append(", r");
                push_decimal(&mut s, rs as u64);
                s
            },
            Instruction::Mem(op, rd, rt, off) => {
                let mut s = String::from_str(op.name());
                s.append(" r");
                push_decimal(&mut s, rd as u64);
                s.append(", r");
                push_decimal(&mut s, rt as u64);
                s.append(", ");
                push_decimal(&mut s, off as u64);
                s
            },
            Instruction::Branch(cond, off) => {
                let mut s = String::from_str(cond.name());
                s.append(" ");
                push_decimal(&mut s, off as u64);
                s
            },
            Instruction::Jump(off) => {
                let mut s = String::from_str("jmp ");
                push_decimal(&mut s, off as u64);
                s
            },
            Instruction::JumpReg(reg) => {
                let mut s = String::from_str("jmp r");
                push_decimal(&mut s, reg as u64);
                s
            },
            Instruction::Li(reg, val) => {
                let mut s = String::from_str("li r");
                push_decimal(&mut s, reg as u64);
                s.append(", ");
                push_decimal(&mut s, val as u64);
                s
            },
        }
    }
}

/// Decodes one word and returns its line of text, or fails when the top five
/// bits of the word are no operation code.
pub fn disassemble(instr: u16) -> (r: Result<String, InvalidInstruction>)
    ensures
        match r {
            Ok(line) => decode_word(instr) matches Some(i) && line@ == render(i),
            Err(e) => decode_word(instr) is None && e.0@ == unknown_opcode_text(instr >> 11),
        },
{
    match decode(instr) {
        Ok(decoded) => Ok(decoded.to_text()),
        Err(e) => Err(e),
    }
}

/// Decoding the word of a well-formed instruction other than `Nop` gives the
/// instruction back, so the decoded word prints as the instruction does.
pub proof fn lemma_decode_encode(instr: Instruction)
    requires
        instr.well_formed(),
        instr != Instruction::Nop,
    ensures
        decode_word(encode_word(instr)) == Some(instr),
        render(decode_word(encode_word(instr))->0) == render(instr),
{
    match instr {
        Instruction::Nop => {},
        Instruction::Alu(op, rd, rt, rs) => {
            let o = op.bits();
            let w = pack(o, rs, rt, rd);
            assert(w >> 11 == o && w & 0xf == rd && (w >> 4) & 0xf == rt && (w >> 8) & 0x7 == rs)
                by (bit_vector)
                requires
                    w == (o << 11) | (rs << 8) | (rt << 4) | rd,
                    o < 32,
                    rs < 8,
                    rt < 16,
                    rd < 16,
            ;
        },
        Instruction::Mem(op, rd, rt, off) => {
            let o = op.bits();
            let w = pack(o, off, rt, rd);
            assert(w >> 11 == o && w & 0xf == rd && (w >> 4) & 0xf == rt && (w >> 8) & 0x7
                == off) by (bit_vector)
                requires
                    w == (o << 11) | (off << 8) | (rt << 4) | rd,
                    o < 32,
                    off < 8,
                    rt < 16,
                    rd < 16,
            ;
        },
        Instruction::Branch(cond, off) => {
            let c = cond.bits();
            let w = encode_word(instr);
            assert(w >> 11 == 0b11100 && (w >> 9) & 0x3 == c && w & 0x1ff == off) by (bit_vector)
                requires
                    w == (0b11100u16 << 11) | (c << 9) | off,
                    c < 4,
                    off < 512,
            ;
        },
        Instruction::Jump(off) => {
            let w = encode_word(instr);
            assert(w >> 11 == 0b11101 && w & 0x7ff == off) by (bit_vector)
                requires
                    w == (0b11101u16 << 11) | off,
                    off < 2048,
            ;
        },
        Instruction::JumpReg(reg) => {
            let w = encode_word(instr);
            assert(w >> 11 == 0b11111 && (w >> 7) & 0xf == reg) by (bit_vector)
                requires
                    w == (0b11111u16 << 11) | (reg << 7),
                    reg < 16,
            ;
        },
        Instruction::Li(reg, val) => {
            let w = encode_word(instr);
            assert(w >> 11 == 0b10100 && (w >> 8) & 0x7 == reg && w & 0xff == val) by (bit_vector)
                requires
                    w == (0b10100u16 << 11) | (reg << 8) | val,
                    reg < 8,
                    val < 256,
            ;
        },
    }
}

/// `Nop` shares its word with the addition of register 0 to itself into
/// register 0, which is what the word decodes to.
pub proof fn lemma_decode_nop()
    ensures
        encode_word(Instruction::Nop) == encode_word(Instruction::Alu(Opcode::Add, 0, 0, 0)),
        decode_word(encode_word(Instruction::Nop)) == Some(Instruction::Alu(Opcode::Add, 0, 0, 0)),
{
    lemma_decode_encode(Instruction::Alu(Opcode::Add, 0, 0, 0));
    assert(pack(0, 0, 0, 0) == 0) by (bit_vector);
}

/// Every word that decodes gives a well-formed instruction.
pub proof fn lemma_decode_well_formed(word: u16)
    ensures
        decode_word(word) matches Some(instr) ==> instr.well_formed() && instr != Instruction::Nop,
{
    assert(((word >> 8) & 0x7) < 8 && ((word >> 4) & 0xf) < 16 && (word & 0xf) < 16 && ((word
        >> 9) & 0x3) < 4 && (word & 0x1ff) < 512 && (word & 0x7ff) < 2048 && ((word >> 7) & 0xf)
        < 16 && (word & 0xff) < 256) by (bit_vector);
}

/// Why a byte stream could not be disassembled.
#[derive(Debug, Clone, Copy, PartialEq, Eq, Structural)]
pub enum DisasmError {
    /// The top five bits of this word are no operation code.
    UnknownOpcode(u16),
    /// The stream does not have an even number of bytes.
    MalformedByteStream,
}

/// The word whose more significant byte is `hi` and whose less significant
/// byte is `lo`.
pub open spec fn word_of(hi: u8, lo: u8) -> u16 {
    (hi as int * 256 + lo as int) as u16
}

/// The words of a stream of bytes, two bytes to a word, the more significant
/// byte first. A last odd byte is left out.
pub open spec fn words_of(bytes: Seq<u8>) -> Seq<u16> {
    Seq::new(bytes.len() / 2, |k: int| word_of(bytes[2 * k], bytes[2 * k + 1]))
}

/// The bytes of a sequence of words, the more significant byte of each first.
pub open spec fn bytes_of(words: Seq<u16>) -> Seq<u8> {
    Seq::new(
        2 * words.len(),
        |i: int|
            if i % 2 == 0 {
                (words[i / 2] / 256) as u8
            } else {
                (words[i / 2] % 256) as u8
            },
    )
}

/// The lines that stand for a sequence of words, or the first word among them
/// that does not decode.
pub open spec fn listing(words: Seq<u16>) -> Result<Seq<Seq<char>>, DisasmError>
    decreases words.len(),
{
    if words.len() == 0 {
        Ok(Seq::empty())
    } else {
        match listing(words.drop_last()) {
            Err(e) => Err(e),
            Ok(lines) => match decode_word(words.last()) {
                Some(instr) => Ok(lines.push(render(instr))),
                None => Err(DisasmError::UnknownOpcode(words.last())),
            },
        }
    }
}

/// The texts of a sequence of strings.
pub open spec fn texts(lines: Seq<String>) -> Seq<Seq<char>> {
    Seq::new(lines.len(), |i: int| lines[i]@)
}

/// Writes each word as two bytes, the more significant byte first.
pub fn words_to_bytes(words: &[u16]) -> (bytes: Vec<u8>)
    ensures
        bytes@ == bytes_of(words@),
{
    let mut bytes: Vec<u8> = Vec::new();
    let mut k: usize = 0;
    while k < words.len()
        invariant
            k <= words.len(),
            bytes@ == bytes_of(words@.take(k as int)),
        decreases words.len() - k,
    {
        let w = words[k];
        bytes.push((w / 256) as u8);
        bytes.push((w % 256) as u8);
        k = k + 1;
    }
    assert(words@.take(k as int) == words@);
    bytes
}

/// Reads a stream of bytes as words, two bytes to a word, the more significant
/// byte first. A stream with an odd number of bytes is refused.
pub fn bytes_to_words(bytes: &[u8]) -> (r: Result<Vec<u16>, DisasmError>)
    ensures
        match r {
            Ok(words) => bytes.len() % 2 == 0 && words@ == words_of(bytes@),
            Err(e) => bytes.len() % 2 != 0 && e == DisasmError::MalformedByteStream,
        },
{
    if bytes.len() % 2 != 0 {
        return Err(DisasmError::MalformedByteStream);
    }
    let n = bytes.len() / 2;
    let mut words: Vec<u16> = Vec::new();
    let mut k: usize = 0;
    while k < n
        invariant
            k <= n,
            n == bytes.len() / 2,
            bytes.len() % 2 == 0,
            words@ == words_of(bytes@).take(k as int),
        decreases n - k,
    {
        let hi = bytes[2 * k];
        let lo = bytes[2 * k + 1];
        words.push((hi as u16) * 256 + (lo as u16));
        k = k + 1;
    }
    Ok(words)
}

/// Disassembles a stream of bytes into one line of text for each word.
///
/// A stream with an odd number of bytes is refused whatever it holds. In a
/// stream of whole words the first word that does not decode is reported, and
/// no lines are returned.
pub fn disassemble_bytes(bytes: &[u8]) -> (r: Result<Vec<String>, DisasmError>)
    ensures
        bytes.len() % 2 != 0 ==> (r matches Err(e) && e == DisasmError::MalformedByteStream),
        bytes.len() % 2 == 0 ==> match r {
            Ok(lines) => listing(words_of(bytes@)) matches Ok(ls) && ls == texts(lines@),
            Err(e) => listing(words_of(bytes@)) matches Err(first) && first == e,
        },
{
    let words = match bytes_to_words(bytes) {
        Ok(words) => words,
        Err(e) => {
            return Err(e);
        },
    };
    let mut lines: Vec<String> = Vec::new();
    let mut k: usize = 0;
    while k < words.len()
        invariant
            k <= words.len(),
            bytes.len() % 2 == 0,
            words@ == words_of(bytes@),
            listing(words@.take(k as int)) matches Ok(ls) && ls == texts(lines@),
        decreases words.len() - k,
    {
        assert(words@.take(k + 1).drop_last() == words@.take(k as int));
        match disassemble(words[k]) {
            Ok(line) => {
                lines.push(line);
            },
            Err(_) => {
                proof {
                    lemma_listing_fails(words@, k + 1);
                }
                return Err(DisasmError::UnknownOpcode(words[k]));
            },
        }
        k = k + 1;
    }
    assert(words@.take(k as int) == words@);
    Ok(lines)
}

/// Once a word fails to decode, the error stands however many words follow.
pub proof fn lemma_listing_fails(words: Seq<u16>, n: int)
    requires
        0 <= n <= words.len(),
        listing(words.take(n)) is Err,
    ensures
        listing(words) == listing(words.take(n)),
    decreases words.len() - n,
{
    if n == words.len() {
        assert(words.take(n) == words);
    } else {
        assert(words.take(n + 1).drop_last() == words.take(n));
        lemma_listing_fails(words, n + 1);
    }
}

/// Reading back the bytes written for a sequence of words gives the words.
pub proof fn lemma_words_of_bytes_of(words: Seq<u16>)
    ensures
        bytes_of(words).len() == 2 * words.len(),
        words_of(bytes_of(words)) == words,
{
    assert(words_of(bytes_of(words)) =~= words);
}

} // verus!
