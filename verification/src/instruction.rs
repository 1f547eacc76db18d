//! Mnemonics and their lowering to machine instructions.

use vstd::prelude::*;
use vstd::arithmetic::div_mod::{lemma_mod_bound, lemma_mod_multiples_vanish};
use vstd::arithmetic::power2::{
    lemma2_to64, lemma_pow2_adds, lemma_pow2_pos, lemma_pow2_strictly_increases, pow2,
};
use vstd::bits::{lemma_u32_low_bits_mask_is_mod, lemma_u32_shl_is_mul, low_bits_mask};
use vstd::string::*;
use crate::bytecode::{Condition, Instruction, InvalidInstruction, Opcode};
use crate::grammar::OperandView;
use crate::parser::{operand_text, operand_views, Operand};
use crate::text::{decimal, push_decimal};

verus! {

/// A mnemonic of the assembly language. Most stand for one machine
/// instruction; `Push` and `Pop` stand for three.
#[derive(Debug, Clone, Copy, PartialEq, Eq, Structural)]
pub enum PseudoInstruction {
    Nop,
    Add,
    Sub,
    Or,
    And,
    Xor,
    Not,
    Shl,
    Shr,
    Cmp,
    Lw,
    Sw,
    Lb,
    Sb,
    Beq,
    Bne,
    Blt,
    Bge,
    Jump,
    Li,
    Push,
    Pop,
}

impl PseudoInstruction {
    /// How many machine instructions the mnemonic stands for.
    pub open spec fn expansion(self) -> nat {
        match self {
            PseudoInstruction::Push | PseudoInstruction::Pop => 3,
            _ => 1,
        }
    }

    /// Whether the mnemonic is lowered at all: byte loads and stores are not.
    pub open spec fn is_supported(self) -> bool {
        self != PseudoInstruction::Lb && self != PseudoInstruction::Sb
    }

    /// Whether the mnemonic stands for a single machine instruction, and so
    /// has an operation code.
    pub open spec fn is_single(self) -> bool {
        self.is_supported() && self.expansion() == 1
    }

    /// The operation code that a single-instruction mnemonic lowers to.
    /// `Nop` lowers to an addition, `Cmp` to a subtraction.
    pub open spec fn opcode(self) -> Opcode {
        match self {
            PseudoInstruction::Add => Opcode::Add,
            PseudoInstruction::Sub => Opcode::Sub,
            PseudoInstruction::Or => Opcode::Or,
            PseudoInstruction::And => Opcode::And,
            PseudoInstruction::Xor => Opcode::Xor,
            PseudoInstruction::Not => Opcode::Not,
            PseudoInstruction::Shl => Opcode::Shl,
            PseudoInstruction::Shr => Opcode::Shr,
            PseudoInstruction::Cmp => Opcode::Sub,
            PseudoInstruction::Lw => Opcode::Lw,
            PseudoInstruction::Sw => Opcode::Sw,
            PseudoInstruction::Beq => Opcode::Branch,
            PseudoInstruction::Bne => Opcode::Branch,
            PseudoInstruction::Blt => Opcode::Branch,
            PseudoInstruction::Bge => Opcode::Branch,
            PseudoInstruction::Jump => Opcode::Jump,
            PseudoInstruction::Li => Opcode::Li,
            _ => Opcode::Add,
        }
    }

    /// The condition that a branch mnemonic tests.
    pub open spec fn condition(self) -> Option<Condition> {
        match self {
            PseudoInstruction::Beq => Some(Condition::Equal),
            PseudoInstruction::Bne => Some(Condition::NotEqual),
            PseudoInstruction::Blt => Some(Condition::LessThan),
            PseudoInstruction::Bge => Some(Condition::GreaterThanEqual),
            _ => None,
        }
    }

    /// The name of the variant.
    pub open spec fn variant_text(self) -> Seq<char> {
        match self {
            PseudoInstruction::Nop => "Nop"@,
            PseudoInstruction::Add => "Add"@,
            PseudoInstruction::Sub => "Sub"@,
            PseudoInstruction::Or => "Or"@,
            PseudoInstruction::And => "And"@,
            PseudoInstruction::Xor => "Xor"@,
            PseudoInstruction::Not => "Not"@,
            PseudoInstruction::Shl => "Shl"@,
            PseudoInstruction::Shr => "Shr"@,
            PseudoInstruction::Cmp => "Cmp"@,
            PseudoInstruction::Lw => "Lw"@,
            PseudoInstruction::Sw => "Sw"@,
            PseudoInstruction::Lb => "Lb"@,
            PseudoInstruction::Sb => "Sb"@,
            PseudoInstruction::Beq => "Beq"@,
            PseudoInstruction::Bne => "Bne"@,
            PseudoInstruction::Blt => "Blt"@,
            PseudoInstruction::Bge => "Bge"@,
            PseudoInstruction::Jump => "Jump"@,
            PseudoInstruction::Li => "Li"@,
            PseudoInstruction::Push => "Push"@,
            PseudoInstruction::Pop => "Pop"@,
        }
    }

    /// Returns how many machine instructions the mnemonic stands for.
    pub fn length(&self) -> (n: u32)
        ensures
            n == self.expansion(),
    {
        match self {
            PseudoInstruction::Push | PseudoInstruction::Pop => 3,
            _ => 1,
        }
    }

    /// Returns the operation code that the mnemonic lowers to.
    pub fn to_opcode(&self) -> (opcode: Opcode)
        requires
            self.is_single(),
        ensures
            opcode == self.opcode(),
    {
        match self {
            PseudoInstruction::Nop => Opcode::Add,
            PseudoInstruction::Add => Opcode::Add,
            PseudoInstruction::Sub => Opcode::Sub,
            PseudoInstruction::Or => Opcode::Or,
            PseudoInstruction::And => Opcode::And,
            PseudoInstruction::Xor => Opcode::Xor,
            PseudoInstruction::Not => Opcode::Not,
            PseudoInstruction::Shl => Opcode::Shl,
            PseudoInstruction::Shr => Opcode::Shr,
            PseudoInstruction::Cmp => Opcode::Sub,
            PseudoInstruction::Lw => Opcode::Lw,
            PseudoInstruction::Sw => Opcode::Sw,
            PseudoInstruction::Beq => Opcode::Branch,
            PseudoInstruction::Bne => Opcode::Branch,
            PseudoInstruction::Blt => Opcode::Branch,
            PseudoInstruction::Bge => Opcode::Branch,
            PseudoInstruction::Jump => Opcode::Jump,
            _ => Opcode::Li,
        }
    }

    /// Returns the condition that the mnemonic tests, if it is a branch.
    pub fn branch_condition(&self) -> (condition: Option<Condition>)
        ensures
            condition == self.condition(),
    {
        match self {
            PseudoInstruction::Beq => Some(Condition::Equal),
            PseudoInstruction::Bne => Some(Condition::NotEqual),
            PseudoInstruction::Blt => Some(Condition::LessThan),
            PseudoInstruction::Bge => Some(Condition::GreaterThanEqual),
            _ => None,
        }
    }

    /// Tells whether the mnemonic is a branch.
    pub fn is_branch(&self) -> (branch: bool)
        ensures
            branch == self.condition().is_some(),
    {
        self.branch_condition().is_some()
    }

    /// Returns the name of the variant.
    pub fn variant_name(&self) -> (name: &'static str)
        ensures
            name@ == self.variant_text(),
    {
        match self {
            PseudoInstruction::Nop => "Nop",
            PseudoInstruction::Add => "Add",
            PseudoInstruction::Sub => "Sub",
            PseudoInstruction::Or => "Or",
            PseudoInstruction::And => "And",
            PseudoInstruction::Xor => "Xor",
            PseudoInstruction::Not => "Not",
            PseudoInstruction::Shl => "Shl",
            PseudoInstruction::Shr => "Shr",
            PseudoInstruction::Cmp => "Cmp",
            PseudoInstruction::Lw => "Lw",
            PseudoInstruction::Sw => "Sw",
            PseudoInstruction::Lb => "Lb",
            PseudoInstruction::Sb => "Sb",
            PseudoInstruction::Beq => "Beq",
            PseudoInstruction::Bne => "Bne",
            PseudoInstruction::Blt => "Blt",
            PseudoInstruction::Bge => "Bge",
            PseudoInstruction::Jump => "Jump",
            PseudoInstruction::Li => "Li",
            PseudoInstruction::Push => "Push",
            PseudoInstruction::Pop => "Pop",
        }
    }
}

/// The operands of a mnemonic are too few, too many or of the wrong kind.
/// The second field says how many were expected, or shows the operand that
/// does not fit.
#[derive(Debug, Clone)]
pub struct InvalidOperands(pub PseudoInstruction, pub String);

impl InvalidOperands {
    /// The text of the error message.
    pub open spec fn message_text(self) -> Seq<char> {
        "Invalid operand for '"@ + self.0.variant_text() + "': '"@ + self.1@ + "'."@
    }

    /// Returns the error message.
    pub fn message(&self) -> (s: String)
        ensures
            s@ == self.message_text(),
    {
        let mut s = String::from_str("Invalid operand for '");
        s.append(self.0.variant_name());
        s.append("': '");
        s.append(self.1.as_str());
        s.append("'.");
        s
    }
}

/// The mnemonic that a name of the assembly language stands for.
pub open spec fn mnemonic(name: Seq<char>) -> Option<PseudoInstruction> {
    if name == "nop"@ {
        Some(PseudoInstruction::Nop)
    } else if name == "add"@ {
        Some(PseudoInstruction::Add)
    } else if name == "sub"@ {
        Some(PseudoInstruction::Sub)
    } else if name == "or"@ {
        Some(PseudoInstruction::Or)
    } else if name == "and"@ {
        Some(PseudoInstruction::And)
    } else if name == "xor"@ {
        Some(PseudoInstruction::Xor)
    } else if name == "not"@ {
        Some(PseudoInstruction::Not)
    } else if name == "shl"@ {
        Some(PseudoInstruction::Shl)
    } else if name == "shr"@ {
        Some(PseudoInstruction::Shr)
    } else if name == "cmp"@ {
        Some(PseudoInstruction::Cmp)
    } else if name == "lw"@ {
        Some(PseudoInstruction::Lw)
    } else if name == "sw"@ {
        Some(PseudoInstruction::Sw)
    } else if name == "beq"@ {
        Some(PseudoInstruction::Beq)
    } else if name == "bne"@ {
        Some(PseudoInstruction::Bne)
    } else if name == "blt"@ {
        Some(PseudoInstruction::Blt)
    } else if name == "bge"@ {
        Some(PseudoInstruction::Bge)
    } else if name == "jmp"@ {
        Some(PseudoInstruction::Jump)
    } else if name == "li"@ {
        Some(PseudoInstruction::Li)
    } else if name == "push"@ {
        Some(PseudoInstruction::Push)
    } else if name == "pop"@ {
        Some(PseudoInstruction::Pop)
    } else {
        None
    }
}

/// Returns the mnemonic that a name stands for, or an error that holds the
/// name when it stands for none.
pub fn name_to_op(name: &str) -> (r: Result<PseudoInstruction, InvalidInstruction>)
    ensures
        match r {
            Ok(op) => mnemonic(name@) == Some(op) && op.is_supported(),
            Err(e) => mnemonic(name@) is None && e.0@ == name@,
        },
{
    if name.eq("nop") {
        Ok(PseudoInstruction::Nop)
    } else if name.eq("add") {
        Ok(PseudoInstruction::Add)
    } else if name.eq("sub") {
        Ok(PseudoInstruction::Sub)
    } else if name.eq("or") {
        Ok(PseudoInstruction::Or)
    } else if name.eq("and") {
        Ok(PseudoInstruction::And)
    } else if name.eq("xor") {
        Ok(PseudoInstruction::Xor)
    } else if name.eq("not") {
        Ok(PseudoInstruction::Not)
    } else if name.eq("shl") {
        Ok(PseudoInstruction::Shl)
    } else if name.eq("shr") {
        Ok(PseudoInstruction::Shr)
    } else if name.eq("cmp") {
        Ok(PseudoInstruction::Cmp)
    } else if name.eq("lw") {
        Ok(PseudoInstruction::Lw)
    } else if name.eq("sw") {
        Ok(PseudoInstruction::Sw)
    } else if name.eq("beq") {
        Ok(PseudoInstruction::Beq)
    } else if name.eq("bne") {
        Ok(PseudoInstruction::Bne)
    } else if name.eq("blt") {
        Ok(PseudoInstruction::Blt)
    } else if name.eq("bge") {
        Ok(PseudoInstruction::Bge)
    } else if name.eq("jmp") {
        Ok(PseudoInstruction::Jump)
    } else if name.eq("li") {
        Ok(PseudoInstruction::Li)
    } else if name.eq("push") {
        Ok(PseudoInstruction::Push)
    } else if name.eq("pop") {
        Ok(PseudoInstruction::Pop)
    } else {
        Err(InvalidInstruction(String::from_str(name)))
    }
}

/// The kind of operand that a place of an instruction takes.
#[derive(Debug, Clone, Copy, PartialEq, Eq, Structural)]
pub enum OperandType {
    /// Any of the sixteen registers.
    Reg,
    /// One of the registers 0 to 7, for a field of three bits.
    RegLo,
    /// A number, cut to the given count of bits.
    Imm(u8),
}

/// The low `bits` bits of the two's-complement form of `value`, as a number:
/// the remainder of `value` by two to the power `bits`, which is never
/// negative.
pub open spec fn low_bits(value: int, bits: nat) -> int {
    value % (pow2(bits) as int)
}

/// Cuts a number to its low `bits` bits.
pub fn truncate(value: i32, bits: u8) -> (field: u16)
    requires
        bits <= 16,
    ensures
        field == low_bits(value as int, bits as nat),
        field < pow2(bits as nat),
{
    proof {
        lemma2_to64();
        lemma_pow2_strictly_increases(bits as nat, 17);
        lemma_pow2_pos(bits as nat);
        lemma_u32_shl_is_mul(1u32, bits as u32);
    }
    let span: u32 = 1u32 << (bits as u32);
    assert(span == pow2(bits as nat));
    let mask: u32 = span - 1;
    let word: u32 = (value as u32) & mask;
    proof {
        let unsigned = value as u32;
        assert(mask == low_bits_mask(bits as nat) as u32);
        lemma_u32_low_bits_mask_is_mod(unsigned, bits as nat);
        assert(word == unsigned % span);
        assert(value >= 0 ==> unsigned == value) by (bit_vector)
            requires
                unsigned == value as u32,
        ;
        assert(value < 0 ==> unsigned == value + 0x1_0000_0000int) by (bit_vector)
            requires
                unsigned == value as u32,
        ;
        if value < 0 {
            lemma_pow2_adds(bits as nat, (32 - bits) as nat);
            let q = pow2((32 - bits) as nat) as int;
            assert(0x1_0000_0000int == (span as int) * q);
            lemma_mod_multiples_vanish(q, value as int, span as int);
        }
    }
    word as u16
}

/// The text that tells how many operands were expected.
pub open spec fn expected_text(count: nat) -> Seq<char> {
    "Expected "@ + decimal(count) + " operands"@
}

/// The field that one operand gives in a place of the given kind, or the
/// text that shows why it does not fit: a register out of range by a fixed
/// sentence, an operand of another kind by its own text. An immediate always
/// fits, cut to the width of the place.
pub open spec fn convert_operand(kind: OperandType, operand: OperandView) -> Result<
    u16,
    Seq<char>,
> {
    match (kind, operand) {
        (OperandType::Reg, OperandView::Register(index)) => if index < 16 {
            Ok(index as u16)
        } else {
            Err("Register must be one of r0-r15"@)
        },
        (OperandType::RegLo, OperandView::Register(index)) => if index < 8 {
            Ok(index as u16)
        } else {
            Err("Rs must be one of r0-r7"@)
        },
        (OperandType::Imm(bits), OperandView::Immediate(value)) => Ok(
            low_bits(value as int, bits as nat) as u16,
        ),
        (_, other) => Err(operand_text(other)),
    }
}

/// The fields of a list of operands of equal length to the list of kinds, or
/// the text for the first operand that does not fit.
pub open spec fn convert_each(kinds: Seq<OperandType>, operands: Seq<OperandView>) -> Result<
    Seq<u16>,
    Seq<char>,
>
    decreases kinds.len(),
{
    if kinds.len() == 0 {
        Ok(Seq::empty())
    } else {
        match convert_each(kinds.drop_last(), operands.drop_last()) {
            Err(e) => Err(e),
            Ok(fields) => match convert_operand(kinds.last(), operands.last()) {
                Ok(field) => Ok(fields.push(field)),
                Err(e) => Err(e),
            },
        }
    }
}

/// The fields of a list of operands held against a list of kinds: an error
/// on a wrong count, else as [`convert_each`].
pub open spec fn convert_operands(kinds: Seq<OperandType>, operands: Seq<OperandView>) -> Result<
    Seq<u16>,
    Seq<char>,
> {
    if kinds.len() != operands.len() {
        Err(expected_text(kinds.len()))
    } else {
        convert_each(kinds, operands)
    }
}

/// Whether a field is within the width of a place of the given kind.
pub open spec fn field_fits(kind: OperandType, field: u16) -> bool {
    match kind {
        OperandType::Reg => field < 16,
        OperandType::RegLo => field < 8,
        OperandType::Imm(bits) => field < pow2(bits as nat),
    }
}

/// Whether every immediate place of the list is at most sixteen bits wide.
pub open spec fn widths_fit(kinds: Seq<OperandType>) -> bool {
    forall|k: int|
        0 <= k < kinds.len() ==> (#[trigger] kinds[k] matches OperandType::Imm(bits) ==> bits
            <= 16)
}

/// Once an operand fails to fit, the error stands however many follow.
proof fn lemma_convert_each_fails(kinds: Seq<OperandType>, operands: Seq<OperandView>, n: int)
    requires
        0 <= n <= kinds.len() == operands.len(),
        convert_each(kinds.take(n), operands.take(n)) is Err,
    ensures
        convert_each(kinds, operands) == convert_each(kinds.take(n), operands.take(n)),
    decreases kinds.len() - n,
{
    if n == kinds.len() {
        assert(kinds.take(n) == kinds);
        assert(operands.take(n) == operands);
    } else {
        assert(kinds.take(n + 1).drop_last() == kinds.take(n));
        assert(operands.take(n + 1).drop_last() == operands.take(n));
        lemma_convert_each_fails(kinds, operands, n + 1);
    }
}

/// Converts one operand for a place of the given kind.
fn convert_one(kind: OperandType, operand: &Operand) -> (r: Result<u16, String>)
    requires
        kind matches OperandType::Imm(bits) ==> bits <= 16,
    ensures
        match r {
            Ok(field) => convert_operand(kind, operand@) == Ok::<u16, Seq<char>>(field),
            Err(text) => convert_operand(kind, operand@) == Err::<u16, Seq<char>>(text@),
        },
{
    match kind {
        OperandType::Reg => match operand {
            Operand::Register(index) => {
                if *index < 16 {
                    Ok(*index as u16)
                } else {
                    Err(String::from_str("Register must be one of r0-r15"))
                }
            },
            other => Err(other.to_text()),
        },
        OperandType::RegLo => match operand {
            Operand::Register(index) => {
                if *index < 8 {
                    Ok(*index as u16)
                } else {
                    Err(String::from_str("Rs must be one of r0-r7"))
                }
            },
            other => Err(other.to_text()),
        },
        OperandType::Imm(bits) => match operand {
            Operand::Immediate(value) => Ok(truncate(*value, bits)),
            other => Err(other.to_text()),
        },
    }
}

/// Holds the operands of a mnemonic against the kinds that it takes and
/// returns their fields, or the error for the wrong count or for the first
/// operand that does not fit.
fn do_convert_operands(opcode: PseudoInstruction, defn: &[OperandType], operands: &[Operand]) -> (r:
    Result<Vec<u16>, InvalidOperands>)
    requires
        widths_fit(defn@),
    ensures
        match r {
            Ok(fields) => convert_operands(defn@, operand_views(operands@)) == Ok::<
                Seq<u16>,
                Seq<char>,
            >(fields@),
            Err(e) => e.0 == opcode && convert_operands(defn@, operand_views(operands@)) == Err::<
                Seq<u16>,
                Seq<char>,
            >(e.1@),
        },
{
    if defn.len() != operands.len() {
        let mut text = String::from_str("Expected ");
        push_decimal(&mut text, defn.len() as u64);
        text.append(" operands");
        return Err(InvalidOperands(opcode, text));
    }
    let ghost views = operand_views(operands@);
    let mut result: Vec<u16> = Vec::new();
    let mut i: usize = 0;
    while i < operands.len()
        invariant
            i <= operands.len() == defn.len(),
            widths_fit(defn@),
            views == operand_views(operands@),
            convert_each(defn@.take(i as int), views.take(i as int)) == Ok::<Seq<u16>, Seq<char>>(
                result@,
            ),
        decreases operands.len() - i,
    {
        assert(defn@.take(i + 1).drop_last() == defn@.take(i as int));
        assert(views.take(i + 1).drop_last() == views.take(i as int));
        match convert_one(defn[i], &operands[i]) {
            Ok(field) => {
                result.push(field);
            },
            Err(text) => {
                proof {
                    lemma_convert_each_fails(defn@, views, i + 1);
                }
                return Err(InvalidOperands(opcode, text));
            },
        }
        i = i + 1;
    }
    assert(defn@.take(i as int) == defn@);
    assert(views.take(i as int) == views);
    Ok(result)
}

/// What a list of operands that fits gives: one field for each operand, each
/// the field of its operand, within the width of its place.
pub proof fn lemma_convert_each_ok(kinds: Seq<OperandType>, operands: Seq<OperandView>)
    requires
        kinds.len() == operands.len(),
        widths_fit(kinds),
        convert_each(kinds, operands) is Ok,
    ensures
        convert_each(kinds, operands)->Ok_0.len() == kinds.len(),
        forall|k: int|
            0 <= k < kinds.len() ==> convert_operand(#[trigger] kinds[k], operands[k]) == Ok::<
                u16,
                Seq<char>,
            >(convert_each(kinds, operands)->Ok_0[k]),
        forall|k: int|
            0 <= k < kinds.len() ==> field_fits(
                #[trigger] kinds[k],
                convert_each(kinds, operands)->Ok_0[k],
            ),
    decreases kinds.len(),
{
    if kinds.len() > 0 {
        let last = kinds.len() - 1;
        let fields = convert_each(kinds, operands)->Ok_0;
        let shorter = convert_each(kinds.drop_last(), operands.drop_last())->Ok_0;
        assert(widths_fit(kinds.drop_last())) by {
            assert forall|k: int| 0 <= k < kinds.drop_last().len() implies (
            #[trigger] kinds.drop_last()[k] matches OperandType::Imm(bits) ==> bits <= 16) by {
                assert(kinds.drop_last()[k] == kinds[k]);
            }
        }
        lemma_convert_each_ok(kinds.drop_last(), operands.drop_last());
        match (kinds[last], operands[last]) {
            (OperandType::Imm(bits), OperandView::Immediate(value)) => {
                lemma2_to64();
                lemma_pow2_pos(bits as nat);
                lemma_pow2_strictly_increases(bits as nat, 17);
                lemma_mod_bound(value as int, pow2(bits as nat) as int);
            },
            _ => {},
        }
        assert(fields == shorter.push(convert_operand(kinds[last], operands[last])->Ok_0));
        assert forall|k: int| 0 <= k < kinds.len() implies convert_operand(
            #[trigger] kinds[k],
            operands[k],
        ) == Ok::<u16, Seq<char>>(fields[k]) && field_fits(kinds[k], fields[k]) by {
            if k < last {
                assert(kinds.drop_last()[k] == kinds[k]);
                assert(operands.drop_last()[k] == operands[k]);
                assert(fields[k] == shorter[k]);
            }
        }
    }
}

/// The machine instruction that a single-instruction mnemonic and its
/// operands lower to, or the text of what is wrong with the operands.
///
/// Arithmetic takes two registers and a low register; `not` two registers,
/// with a third field of 0; `cmp` a register and a low register, and
/// subtracts into register 0. Loads and stores take two registers and an
/// offset of 3 bits, branches an offset of 9 bits, `li` a low register and a
/// value of 8 bits. `jmp` takes an offset of 11 bits, or else a register.
/// `nop` is the addition of register 0 to itself, whatever its operands.
pub open spec fn lower_single(op: PseudoInstruction, operands: Seq<OperandView>) -> Result<
    Instruction,
    Seq<char>,
> {
    match op {
        PseudoInstruction::Nop => Ok(Instruction::Alu(Opcode::Add, 0, 0, 0)),
        PseudoInstruction::Not => match convert_operands(
            seq![OperandType::Reg, OperandType::Reg],
            operands,
        ) {
            Ok(f) => Ok(Instruction::Alu(Opcode::Not, f[0], f[1], 0)),
            Err(e) => Err(e),
        },
        PseudoInstruction::Cmp => match convert_operands(
            seq![OperandType::Reg, OperandType::RegLo],
            operands,
        ) {
            Ok(f) => Ok(Instruction::Alu(Opcode::Sub, 0, f[0], f[1])),
            Err(e) => Err(e),
        },
        PseudoInstruction::Lw | PseudoInstruction::Sw => match convert_operands(
            seq![OperandType::Reg, OperandType::Reg, OperandType::Imm(3)],
            operands,
        ) {
            Ok(f) => Ok(Instruction::Mem(op.opcode(), f[0], f[1], f[2])),
            Err(e) => Err(e),
        },
        PseudoInstruction::Beq | PseudoInstruction::Bne | PseudoInstruction::Blt
        | PseudoInstruction::Bge => match convert_operands(seq![OperandType::Imm(9)], operands) {
            Ok(f) => Ok(Instruction::Branch(op.condition()->0, f[0])),
            Err(e) => Err(e),
        },
        PseudoInstruction::Jump => match convert_operands(seq![OperandType::Imm(11)], operands) {
            Ok(f) => Ok(Instruction::Jump(f[0])),
            Err(_) => match convert_operands(seq![OperandType::Reg], operands) {
                Ok(f) => Ok(Instruction::JumpReg(f[0])),
                Err(e) => Err(e),
            },
        },
        PseudoInstruction::Li => match convert_operands(
            seq![OperandType::RegLo, OperandType::Imm(8)],
            operands,
        ) {
            Ok(f) => Ok(Instruction::Li(f[0], f[1])),
            Err(e) => Err(e),
        },
        _ => match convert_operands(
            seq![OperandType::Reg, OperandType::Reg, OperandType::RegLo],
            operands,
        ) {
            Ok(f) => Ok(Instruction::Alu(op.opcode(), f[0], f[1], f[2])),
            Err(e) => Err(e),
        },
    }
}

/// The machine instructions that a mnemonic and its operands lower to.
///
/// `push` takes a register and gives three instructions: load 4 into
/// register 1, subtract register 1 from register 15, store the register at
/// offset 0 from register 15. `pop` takes a register and gives: load it from
/// offset 0 from register 15, load 4 into register 1, add register 1 to
/// register 15. Every other mnemonic gives the one instruction of
/// [`lower_single`].
pub open spec fn lower(op: PseudoInstruction, operands: Seq<OperandView>) -> Result<
    Seq<Instruction>,
    Seq<char>,
> {
    match op {
        PseudoInstruction::Push => match convert_operands(seq![OperandType::Reg], operands) {
            Ok(f) => Ok(
                seq![
                    Instruction::Li(1, 4),
                    Instruction::Alu(Opcode::Sub, 15, 15, 1),
                    Instruction::Mem(Opcode::Sw, f[0], 15, 0),
                ],
            ),
            Err(e) => Err(e),
        },
        PseudoInstruction::Pop => match convert_operands(seq![OperandType::Reg], operands) {
            Ok(f) => Ok(
                seq![
                    Instruction::Mem(Opcode::Lw, f[0], 15, 0),
                    Instruction::Li(1, 4),
                    Instruction::Alu(Opcode::Add, 15, 15, 1),
                ],
            ),
            Err(e) => Err(e),
        },
        _ => match lower_single(op, operands) {
            Ok(instr) => Ok(seq![instr]),
            Err(e) => Err(e),
        },
    }
}

/// Holds the operands against a list of kinds, as [`do_convert_operands`]
/// does, and says of the fields that there is one for each kind and that each
/// is within its width.
fn convert_shape(opcode: PseudoInstruction, shape: Vec<OperandType>, operands: &[Operand]) -> (r:
    Result<Vec<u16>, InvalidOperands>)
    requires
        widths_fit(shape@),
    ensures
        match r {
            Ok(fields) => convert_operands(shape@, operand_views(operands@)) == Ok::<
                Seq<u16>,
                Seq<char>,
            >(fields@) && fields.len() == shape.len() && forall|k: int|
                0 <= k < shape.len() ==> field_fits(#[trigger] shape[k], fields[k]),
            Err(e) => e.0 == opcode && convert_operands(shape@, operand_views(operands@)) == Err::<
                Seq<u16>,
                Seq<char>,
            >(e.1@),
        },
{
    let r = do_convert_operands(opcode, shape.as_slice(), operands);
    proof {
        if r is Ok {
            lemma_convert_each_ok(shape@, operand_views(operands@));
        }
    }
    r
}

/// Lowers a mnemonic that stands for one machine instruction, and returns
/// the instruction with the warning that goes with it, if there is one.
pub fn make_single_insn(op: PseudoInstruction, operands: &[Operand]) -> (r: Result<
    (Instruction, Option<Warning>),
    InvalidOperands,
>)
    requires
        op.is_single(),
    ensures
        match r {
            Ok((instr, warning)) => lower_single(op, operand_views(operands@)) == Ok::<
                Instruction,
                Seq<char>,
            >(instr) && instr.well_formed() && warning == warning_of(
                op,
                operand_views(operands@),
            ),
            Err(e) => e.0 == op && lower_single(op, operand_views(operands@)) == Err::<
                Instruction,
                Seq<char>,
            >(e.1@),
        },
{
    proof {
        lemma2_to64();
    }
    let lowered = match op {
        PseudoInstruction::Nop => Ok(Instruction::Alu(Opcode::Add, 0, 0, 0)),
        PseudoInstruction::Add
        | PseudoInstruction::Sub
        | PseudoInstruction::And
        | PseudoInstruction::Or
        | PseudoInstruction::Xor
        | PseudoInstruction::Shl
        | PseudoInstruction::Shr => {
            let shape = vec![OperandType::Reg, OperandType::Reg, OperandType::RegLo];
            assert(shape@ == seq![OperandType::Reg, OperandType::Reg, OperandType::RegLo]);
            match convert_shape(op, shape, operands) {
                Ok(f) => Ok(Instruction::Alu(op.to_opcode(), f[0], f[1], f[2])),
                Err(e) => Err(e),
            }
        },
        PseudoInstruction::Not => {
            let shape = vec![OperandType::Reg, OperandType::Reg];
            assert(shape@ == seq![OperandType::Reg, OperandType::Reg]);
            match convert_shape(op, shape, operands) {
                Ok(f) => Ok(Instruction::Alu(Opcode::Not, f[0], f[1], 0)),
                Err(e) => Err(e),
            }
        },
        PseudoInstruction::Cmp => {
            let shape = vec![OperandType::Reg, OperandType::RegLo];
            assert(shape@ == seq![OperandType::Reg, OperandType::RegLo]);
            match convert_shape(op, shape, operands) {
                Ok(f) => Ok(Instruction::Alu(Opcode::Sub, 0, f[0], f[1])),
                Err(e) => Err(e),
            }
        },
        PseudoInstruction::Lw | PseudoInstruction::Sw => {
            let shape = vec![OperandType::Reg, OperandType::Reg, OperandType::Imm(3)];
            assert(shape@ == seq![OperandType::Reg, OperandType::Reg, OperandType::Imm(3)]);
            match convert_shape(op, shape, operands) {
                Ok(f) => Ok(Instruction::Mem(op.to_opcode(), f[0], f[1], f[2])),
                Err(e) => Err(e),
            }
        },
        PseudoInstruction::Beq
        | PseudoInstruction::Bne
        | PseudoInstruction::Bge
        | PseudoInstruction::Blt => {
            let shape = vec![OperandType::Imm(9)];
            assert(shape@ == seq![OperandType::Imm(9)]);
            let cond = op.branch_condition().unwrap();
            match convert_shape(op, shape, operands) {
                Ok(f) => Ok(Instruction::Branch(cond, f[0])),
                Err(e) => Err(e),
            }
        },
        PseudoInstruction::Jump => {
            // Both `jmp <imm>` and `jmp <reg>` are tried, in this order.
            let shape = vec![OperandType::Imm(11)];
            assert(shape@ == seq![OperandType::Imm(11)]);
            match convert_shape(op, shape, operands) {
                Ok(f) => Ok(Instruction::Jump(f[0])),
                Err(_) => {
                    let shape = vec![OperandType::Reg];
                    assert(shape@ == seq![OperandType::Reg]);
                    match convert_shape(op, shape, operands) {
                        Ok(f) => Ok(Instruction::JumpReg(f[0])),
                        Err(e) => Err(e),
                    }
                },
            }
        },
        _ => {
            let shape = vec![OperandType::RegLo, OperandType::Imm(8)];
            assert(shape@ == seq![OperandType::RegLo, OperandType::Imm(8)]);
            match convert_shape(op, shape, operands) {
                Ok(f) => Ok(Instruction::Li(f[0], f[1])),
                Err(e) => Err(e),
            }
        },
    };
    match lowered {
        Ok(instr) => Ok((instr, lowering_warning(op, operands))),
        Err(e) => Err(e),
    }
}

/// Lowers a mnemonic and its operands to machine instructions: three for
/// `push` and `pop`, one for every other mnemonic. The instructions come with
/// the warning that goes with them, if there is one.
pub fn make_insns(op: PseudoInstruction, operands: &[Operand]) -> (r: Result<
    (Vec<Instruction>, Option<Warning>),
    InvalidOperands,
>)
    requires
        op.is_supported(),
    ensures
        match r {
            Ok((instrs, warning)) => lower(op, operand_views(operands@)) == Ok::<
                Seq<Instruction>,
                Seq<char>,
            >(instrs@) && instrs.len() == op.expansion() && (forall|k: int|
                0 <= k < instrs.len() ==> (#[trigger] instrs[k]).well_formed()) && warning
                == warning_of(op, operand_views(operands@)),
            Err(e) => e.0 == op && lower(op, operand_views(operands@)) == Err::<
                Seq<Instruction>,
                Seq<char>,
            >(e.1@),
        },
{
    match op {
        PseudoInstruction::Push => {
            let shape = vec![OperandType::Reg];
            assert(shape@ == seq![OperandType::Reg]);
            match convert_shape(op, shape, operands) {
                Ok(f) => {
                    let instrs = vec![
                        Instruction::Li(1, 4),
                        Instruction::Alu(Opcode::Sub, 15, 15, 1),
                        Instruction::Mem(Opcode::Sw, f[0], 15, 0),
                    ];
                    assert(instrs@ == seq![
                        Instruction::Li(1, 4),
                        Instruction::Alu(Opcode::Sub, 15, 15, 1),
                        Instruction::Mem(Opcode::Sw, f[0], 15, 0),
                    ]);
                    Ok((instrs, None))
                },
                Err(e) => Err(e),
            }
        },
        PseudoInstruction::Pop => {
            let shape = vec![OperandType::Reg];
            assert(shape@ == seq![OperandType::Reg]);
            match convert_shape(op, shape, operands) {
                Ok(f) => {
                    let instrs = vec![
                        Instruction::Mem(Opcode::Lw, f[0], 15, 0),
                        Instruction::Li(1, 4),
                        Instruction::Alu(Opcode::Add, 15, 15, 1),
                    ];
                    assert(instrs@ == seq![
                        Instruction::Mem(Opcode::Lw, f[0], 15, 0),
                        Instruction::Li(1, 4),
                        Instruction::Alu(Opcode::Add, 15, 15, 1),
                    ]);
                    Ok((instrs, None))
                },
                Err(e) => Err(e),
            }
        },
        simple_op => match make_single_insn(simple_op, operands) {
            Ok((instr, warning)) => {
                let instrs = vec![instr];
                assert(instrs@ == seq![instr]);
                Ok((instrs, warning))
            },
            Err(e) => Err(e),
        },
    }
}

/// An immediate is cut to the low bits of its two's-complement form,
/// whether it fits the place or not: the field is the remainder of the value
/// by two to the power of the width. A value that fits is kept as it is, and
/// values that differ by a multiple of that power give the same field.
pub proof fn lemma_immediate_truncated(bits: u8, value: i32, other: i32)
    requires
        bits <= 16,
    ensures
        convert_operand(OperandType::Imm(bits), OperandView::Immediate(value)) == Ok::<
            u16,
            Seq<char>,
        >(low_bits(value as int, bits as nat) as u16),
        0 <= low_bits(value as int, bits as nat) < pow2(bits as nat) <= 0x1_0000,
        0 <= value < pow2(bits as nat) ==> low_bits(value as int, bits as nat) == value,
        (value - other) % (pow2(bits as nat) as int) == 0 ==> low_bits(value as int, bits as nat)
            == low_bits(other as int, bits as nat),
{
    let span = pow2(bits as nat) as int;
    lemma2_to64();
    lemma_pow2_pos(bits as nat);
    lemma_pow2_strictly_increases(bits as nat, 17);
    lemma_mod_bound(value as int, span);
    if 0 <= value < span {
        vstd::arithmetic::div_mod::lemma_small_mod(value as nat, span as nat);
    }
    if (value - other) % span == 0 {
        vstd::arithmetic::div_mod::lemma_mod_equivalence(value as int, other as int, span);
    }
}

/// What the assembler reports of a statement without refusing it.
#[derive(Debug, Clone, Copy, PartialEq, Eq, Structural)]
pub enum Warning {
    /// An immediate did not fit its place of `bits` bits and lost its high
    /// bits.
    Truncated { value: i32, bits: u8 },
    /// A jump through a register was assembled; the machine does not
    /// implement it.
    JumpRegister,
}

/// The place of a mnemonic that takes an immediate: the index of the
/// operand and the width in bits.
pub open spec fn immediate_place(op: PseudoInstruction) -> Option<(int, u8)> {
    match op {
        PseudoInstruction::Lw | PseudoInstruction::Sw => Some((2, 3)),
        PseudoInstruction::Beq | PseudoInstruction::Bne | PseudoInstruction::Blt
        | PseudoInstruction::Bge => Some((0, 9)),
        PseudoInstruction::Jump => Some((0, 11)),
        PseudoInstruction::Li => Some((1, 8)),
        _ => None,
    }
}

/// The warning that goes with the lowering of a mnemonic and its operands:
/// for an immediate that is negative or too large for its place, and for a
/// jump through a register.
pub open spec fn warning_of(op: PseudoInstruction, operands: Seq<OperandView>) -> Option<Warning> {
    match immediate_place(op) {
        Some((index, bits)) => if index < operands.len() {
            match operands[index] {
                OperandView::Immediate(value) => if 0 <= value < pow2(bits as nat) {
                    None
                } else {
                    Some(Warning::Truncated { value, bits })
                },
                OperandView::Register(_) => if op == PseudoInstruction::Jump {
                    Some(Warning::JumpRegister)
                } else {
                    None
                },
                OperandView::Name(_) => None,
            }
        } else {
            None
        },
        None => None,
    }
}

/// Returns the warning that goes with the lowering of a mnemonic and its
/// operands, if there is one.
pub fn lowering_warning(op: PseudoInstruction, operands: &[Operand]) -> (warning: Option<Warning>)
    ensures
        warning == warning_of(op, operand_views(operands@)),
{
    proof {
        lemma2_to64();
    }
    let (index, bits, limit): (usize, u8, i32) = match op {
        PseudoInstruction::Lw | PseudoInstruction::Sw => (2, 3, 8),
        PseudoInstruction::Beq
        | PseudoInstruction::Bne
        | PseudoInstruction::Blt
        | PseudoInstruction::Bge => (0, 9, 512),
        PseudoInstruction::Jump => (0, 11, 2048),
        PseudoInstruction::Li => (1, 8, 256),
        _ => {
            return None;
        },
    };
    if index >= operands.len() {
        return None;
    }
    match &operands[index] {
        Operand::Immediate(value) => {
            if 0 <= *value && *value < limit {
                None
            } else {
                Some(Warning::Truncated { value: *value, bits })
            }
        },
        Operand::Register(_) => {
            if op == PseudoInstruction::Jump {
                Some(Warning::JumpRegister)
            } else {
                None
            }
        },
        Operand::Name(_) => None,
    }
}

/// The fields of a list of operands that fits, one for each kind and each
/// within its width.
proof fn lemma_convert_operands_ok(kinds: Seq<OperandType>, operands: Seq<OperandView>)
    requires
        widths_fit(kinds),
        convert_operands(kinds, operands) is Ok,
    ensures
        convert_operands(kinds, operands)->Ok_0.len() == kinds.len(),
        forall|k: int|
            0 <= k < kinds.len() ==> field_fits(
                #[trigger] kinds[k],
                convert_operands(kinds, operands)->Ok_0[k],
            ),
{
    lemma_convert_each_ok(kinds, operands);
}

/// Every machine instruction that lowering gives is well formed, and none is
/// `Nop`; there are as many as the mnemonic is long.
pub proof fn lemma_lower_well_formed(op: PseudoInstruction, operands: Seq<OperandView>)
    requires
        op.is_supported(),
    ensures
        lower(op, operands) matches Ok(instrs) ==> instrs.len() == op.expansion() && forall|k: int|
            0 <= k < instrs.len() ==> (#[trigger] instrs[k]).well_formed() && instrs[k]
                != Instruction::Nop,
{
    lemma2_to64();
    let three = seq![OperandType::Reg, OperandType::Reg, OperandType::RegLo];
    let two = seq![OperandType::Reg, OperandType::Reg];
    let compare = seq![OperandType::Reg, OperandType::RegLo];
    let memory = seq![OperandType::Reg, OperandType::Reg, OperandType::Imm(3)];
    let branch = seq![OperandType::Imm(9)];
    let jump = seq![OperandType::Imm(11)];
    let register = seq![OperandType::Reg];
    let load = seq![OperandType::RegLo, OperandType::Imm(8)];
    if convert_operands(three, operands) is Ok {
        lemma_convert_operands_ok(three, operands);
        assert(three[0] == OperandType::Reg && three[1] == OperandType::Reg && three[2]
            == OperandType::RegLo);
    }
    if convert_operands(two, operands) is Ok {
        lemma_convert_operands_ok(two, operands);
        assert(two[0] == OperandType::Reg && two[1] == OperandType::Reg);
    }
    if convert_operands(compare, operands) is Ok {
        lemma_convert_operands_ok(compare, operands);
        assert(compare[0] == OperandType::Reg && compare[1] == OperandType::RegLo);
    }
    if convert_operands(memory, operands) is Ok {
        lemma_convert_operands_ok(memory, operands);
        assert(memory[0] == OperandType::Reg && memory[1] == OperandType::Reg && memory[2]
            == OperandType::Imm(3));
    }
    if convert_operands(branch, operands) is Ok {
        lemma_convert_operands_ok(branch, operands);
        assert(branch[0] == OperandType::Imm(9));
    }
    if convert_operands(jump, operands) is Ok {
        lemma_convert_operands_ok(jump, operands);
        assert(jump[0] == OperandType::Imm(11));
    }
    if convert_operands(register, operands) is Ok {
        lemma_convert_operands_ok(register, operands);
        assert(register[0] == OperandType::Reg);
    }
    if convert_operands(load, operands) is Ok {
        lemma_convert_operands_ok(load, operands);
        assert(load[0] == OperandType::RegLo && load[1] == OperandType::Imm(8));
    }
}

/// No name stands for a mnemonic that is not lowered.
pub proof fn lemma_mnemonic_supported(name: Seq<char>)
    ensures
        mnemonic(name) matches Some(op) ==> op.is_supported(),
{
}

} // verus!
