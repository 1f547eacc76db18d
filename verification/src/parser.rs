//! The parser of assembly text.

use vstd::prelude::*;
use vstd::slice::slice_subrange;
use vstd::string::*;
use crate::grammar::{
    comment, constant, decimal_literal, digit_value, has, hex_literal, immediate, instruction,
    is_digit, is_hex_digit, label, lemma_numeral_grows, lemma_run, line_end, member,
    more_operands, name_end, numeral_value, operand, operand_list, program, register, run_end,
    statement, statements, trivia_end, AsmObjectView, Class, OperandView, CARRIAGE_RETURN, COLON,
    COMMA, EQUALS, HASH, LINE_FEED, LOWER_R, LOWER_X, MINUS, PLUS, SPACE, TAB, UNDERSCORE, ZERO,
};
use crate::text::{ascii_string, decimal, push_decimal, push_signed_decimal, signed_decimal};

verus! {

/// An operand of an instruction statement.
#[derive(Debug, PartialEq, Eq)]
pub enum Operand {
    /// A register, by its index.
    Register(u8),
    /// A number, before it is cut to the width of its field.
    Immediate(i32),
    /// The name of a constant or of a label.
    Name(String),
}

impl View for Operand {
    type V = OperandView;

    open spec fn view(&self) -> OperandView {
        match self {
            Operand::Register(index) => OperandView::Register(*index),
            Operand::Immediate(value) => OperandView::Immediate(*value),
            Operand::Name(name) => OperandView::Name(name@),
        }
    }
}

impl Clone for Operand {
    fn clone(&self) -> (copy: Self)
        ensures
            copy@ == self@,
    {
        match self {
            Operand::Register(index) => Operand::Register(*index),
            Operand::Immediate(value) => Operand::Immediate(*value),
            Operand::Name(name) => Operand::Name(name.clone()),
        }
    }
}

/// The text that an operand is shown as: a register by the number of its
/// index, an immediate by its decimal numeral, a name as it is.
pub open spec fn operand_text(operand: OperandView) -> Seq<char> {
    match operand {
        OperandView::Register(index) => decimal(index as nat),
        OperandView::Immediate(value) => signed_decimal(value as int),
        OperandView::Name(name) => name,
    }
}

impl Operand {
    /// Returns the text that the operand is shown as.
    pub fn to_text(&self) -> (s: String)
        ensures
            s@ == operand_text(self@),
    {
        match self {
            Operand::Register(index) => {
                let mut s = String::new();
                push_decimal(&mut s, *index as u64);
                s
            },
            Operand::Immediate(value) => {
                let mut s = String::new();
                push_signed_decimal(&mut s, *value);
                s
            },
            Operand::Name(name) => name.clone(),
        }
    }
}

/// The views of a sequence of operands.
pub open spec fn operand_views(operands: Seq<Operand>) -> Seq<OperandView> {
    Seq::new(operands.len(), |i: int| operands[i]@)
}

/// One statement of an assembly text.
#[derive(Debug, PartialEq, Eq)]
pub enum AsmObject {
    /// A mnemonic and its operands.
    Instruction(String, Vec<Operand>),
    /// A label, which names the position of the instruction after it.
    Label(String),
    /// A constant, which gives a name to a value.
    Constant(String, String),
}

impl View for AsmObject {
    type V = AsmObjectView;

    open spec fn view(&self) -> AsmObjectView {
        match self {
            AsmObject::Instruction(name, operands) => AsmObjectView::Instruction(
                name@,
                operand_views(operands@),
            ),
            AsmObject::Label(name) => AsmObjectView::Label(name@),
            AsmObject::Constant(name, value) => AsmObjectView::Constant(name@, value@),
        }
    }
}

/// The views of a sequence of statements.
pub open spec fn object_views(objects: Seq<AsmObject>) -> Seq<AsmObjectView> {
    Seq::new(objects.len(), |i: int| objects[i]@)
}

/// The text does not follow the grammar from byte `offset` on.
#[derive(Debug, Clone, Copy, PartialEq, Eq, Structural)]
pub struct SyntaxError {
    pub offset: usize,
}

/// Reads a decimal literal with `nom::character::complete::i32`.
///
/// Assumed of that function, not proved: it takes a `+` or `-` if the input
/// begins with one, then decimal digits up to the first byte that is none;
/// it gives the number with its sign and the input that is left; and it fails
/// when no digit follows the sign or the number does not fit in an `i32`.
/// That is what [`decimal_literal`] says.
#[verifier::external_body]
fn decimal_i32(input: &[u8]) -> (r: Option<(&[u8], i32)>)
    ensures
        match r {
            Some((rest, value)) => decimal_literal(input@) matches Some((number, taken))
                && value == number && rest@ == input@.skip(taken),
            None => decimal_literal(input@) is None,
        },
{
    match nom::character::complete::i32::<&[u8], nom::error::Error<&[u8]>>(input) {
        Ok((rest, value)) => Some((rest, value)),
        Err(_) => None,
    }
}

/// Tells whether a byte belongs to a class.
pub fn in_class(class: Class, b: u8) -> (r: bool)
    ensures
        r == member(class, b),
{
    let alpha = (0x41 <= b && b <= 0x5a) || (0x61 <= b && b <= 0x7a);
    let digit = 0x30 <= b && b <= 0x39;
    match class {
        Class::Blank => b == SPACE || b == TAB,
        Class::Digit => digit,
        Class::HexDigit => digit || (0x41 <= b && b <= 0x46) || (0x61 <= b && b <= 0x66),
        Class::Alphanumeric => alpha || digit,
        Class::NameChar => alpha || digit || b == UNDERSCORE,
        Class::CommentText => b != LINE_FEED && b != CARRIAGE_RETURN,
    }
}

/// Returns the end of the longest run of bytes of the class from `pos` on.
pub fn scan(input: &[u8], pos: usize, class: Class) -> (end: usize)
    requires
        pos <= input.len(),
    ensures
        end == run_end(input@, pos as int, class),
        pos <= end <= input.len(),
{
    let mut end = pos;
    while end < input.len() && in_class(class, input[end])
        invariant
            pos <= end <= input.len(),
            run_end(input@, pos as int, class) == run_end(input@, end as int, class),
        decreases input.len() - end,
    {
        end = end + 1;
    }
    end
}

/// Returns the number that the hexadecimal or decimal digits
/// `input[from..to]` stand for, unless it is above `limit`.
fn numeral(input: &[u8], from: usize, to: usize, radix: u64, limit: u64) -> (r: Option<u64>)
    requires
        from <= to <= input.len(),
        radix == 10 || radix == 16,
        limit <= u32::MAX,
        forall|k: int| from <= k < to ==> is_hex_digit(#[trigger] input@[k]),
        radix == 10 ==> forall|k: int| from <= k < to ==> is_digit(#[trigger] input@[k]),
    ensures
        match r {
            Some(value) => value == numeral_value(
                input@.subrange(from as int, to as int),
                radix as nat,
            ) && value <= limit,
            None => numeral_value(input@.subrange(from as int, to as int), radix as nat) > limit,
        },
{
    let ghost digits = input@.subrange(from as int, to as int);
    let mut value: u64 = 0;
    let mut k: usize = from;
    while k < to
        invariant
            from <= k <= to <= input.len(),
            radix == 10 || radix == 16,
            limit <= u32::MAX,
            digits == input@.subrange(from as int, to as int),
            forall|j: int| from <= j < to ==> is_hex_digit(#[trigger] input@[j]),
            radix == 10 ==> forall|j: int| from <= j < to ==> is_digit(#[trigger] input@[j]),
            value == numeral_value(digits.take(k - from), radix as nat),
            value <= limit,
        decreases to - k,
    {
        let b = input[k];
        let d: u64 = if b <= 0x39 {
            (b - 0x30) as u64
        } else if b >= 0x61 {
            (b - 0x61 + 10) as u64
        } else {
            (b - 0x41 + 10) as u64
        };
        assert(is_hex_digit(input@[k as int]));
        assert(d == digit_value(b));
        assert(digits.take(k + 1 - from).drop_last() == digits.take(k - from));
        assert(digits.take(k + 1 - from).last() == b);
        let next = value * radix + d;
        if next > limit {
            proof {
                lemma_numeral_grows(digits, k + 1 - from, radix as nat);
            }
            return None;
        }
        value = next;
        k = k + 1;
    }
    assert(digits.take(k - from) == digits);
    Some(value)
}

/// Reads a register at `pos`.
fn register_at(input: &[u8], pos: usize) -> (r: Option<(u8, usize)>)
    requires
        pos <= input.len(),
    ensures
        match r {
            Some((index, end)) => register(input@, pos as int) == Some((index, end as int))
                && pos < end <= input.len(),
            None => register(input@, pos as int) is None,
        },
{
    if pos < input.len() && input[pos] == LOWER_R {
        let end = scan(input, pos + 1, Class::Digit);
        if end > pos + 1 {
            proof {
                lemma_run(input@, pos + 1, Class::Digit);
            }
            match numeral(input, pos + 1, end, 10, 255) {
                Some(index) => Some((index as u8, end)),
                None => None,
            }
        } else {
            None
        }
    } else {
        None
    }
}

/// Reads a hexadecimal literal at `pos`.
fn hex_literal_at(input: &[u8], pos: usize) -> (r: Option<(i32, usize)>)
    requires
        pos <= input.len(),
    ensures
        match r {
            Some((value, end)) => hex_literal(input@, pos as int) == Some((value, end as int))
                && pos < end <= input.len(),
            None => hex_literal(input@, pos as int) is None,
        },
{
    if pos < input.len() && input[pos] == ZERO && pos + 1 < input.len() && input[pos + 1]
        == LOWER_X {
        let end = scan(input, pos + 2, Class::HexDigit);
        if end > pos + 2 {
            proof {
                lemma_run(input@, pos + 2, Class::HexDigit);
            }
            match numeral(input, pos + 2, end, 16, 0x7fff_ffff) {
                Some(value) => Some((value as i32, end)),
                None => None,
            }
        } else {
            None
        }
    } else {
        None
    }
}

/// Reads an immediate at `pos`: a hexadecimal literal, or else a decimal one.
fn immediate_at(input: &[u8], pos: usize) -> (r: Option<(i32, usize)>)
    requires
        pos <= input.len(),
    ensures
        match r {
            Some((value, end)) => immediate(input@, pos as int) == Some((value, end as int))
                && pos < end <= input.len(),
            None => immediate(input@, pos as int) is None,
        },
{
    match hex_literal_at(input, pos) {
        Some(found) => Some(found),
        None => {
            let tail = slice_subrange(input, pos, input.len());
            assert(tail@ == input@.skip(pos as int));
            proof {
                let t = tail@;
                let start: int = if has(t, 0, MINUS) || has(t, 0, PLUS) {
                    1
                } else {
                    0
                };
                if start <= t.len() {
                    lemma_run(t, start, Class::Digit);
                }
            }
            match decimal_i32(tail) {
                Some((rest, value)) => Some((value, input.len() - rest.len())),
                None => None,
            }
        },
    }
}

/// Reads a name at `pos` and returns where it ends.
fn parse_name(input: &[u8], pos: usize) -> (r: Option<usize>)
    requires
        pos <= input.len(),
    ensures
        match r {
            Some(end) => name_end(input@, pos as int) == Some(end as int) && pos < end
                <= input.len(),
            None => name_end(input@, pos as int) is None,
        },
{
    if pos < input.len() {
        let b = input[pos];
        if (0x41 <= b && b <= 0x5a) || (0x61 <= b && b <= 0x7a) || b == UNDERSCORE {
            return Some(scan(input, pos + 1, Class::NameChar));
        }
    }
    None
}

/// Reads an operand at `pos`: a register, or else an immediate, or else a
/// name.
fn operand_at(input: &[u8], pos: usize) -> (r: Option<(Operand, usize)>)
    requires
        pos <= input.len(),
    ensures
        match r {
            Some((found, end)) => operand(input@, pos as int) == Some((found@, end as int))
                && pos < end <= input.len(),
            None => operand(input@, pos as int) is None,
        },
{
    if let Some((index, end)) = register_at(input, pos) {
        return Some((Operand::Register(index), end));
    }
    if let Some((value, end)) = immediate_at(input, pos) {
        return Some((Operand::Immediate(value), end));
    }
    match parse_name(input, pos) {
        Some(end) => Some((Operand::Name(ascii_string(input, pos, end)), end)),
        None => None,
    }
}

/// Reads a list of operands separated by commas at `pos`. The list may be
/// empty, and a comma that no operand follows is left unread.
fn parse_operand_list(input: &[u8], pos: usize) -> (r: (Vec<Operand>, usize))
    requires
        pos <= input.len(),
    ensures
        operand_list(input@, pos as int).0 == operand_views(r.0@),
        operand_list(input@, pos as int).1 == r.1,
        pos <= r.1 <= input.len(),
{
    let mut operands: Vec<Operand> = Vec::new();
    let mut cur: usize = match operand_at(input, pos) {
        Some((first, end)) => {
            operands.push(first);
            end
        },
        None => {
            assert(operand_views(operands@) == Seq::<OperandView>::empty());
            return (operands, pos);
        },
    };
    assert(operand_views(operands@) == seq![operands@[0]@]);
    loop
        invariant
            pos <= cur <= input.len(),
            operand_list(input@, pos as int).0 == operand_views(operands@) + more_operands(
                input@,
                cur as int,
            ).0,
            operand_list(input@, pos as int).1 == more_operands(input@, cur as int).1,
        decreases input.len() - cur,
    {
        let comma = scan(input, cur, Class::Blank);
        if comma < input.len() && input[comma] == COMMA {
            let start = scan(input, comma + 1, Class::Blank);
            match operand_at(input, start) {
                Some((found, end)) => {
                    let ghost before = operand_views(operands@);
                    operands.push(found);
                    assert(operand_views(operands@) == before.push(found@));
                    assert(before + (seq![found@] + more_operands(input@, end as int).0)
                        == before.push(found@) + more_operands(input@, end as int).0);
                    cur = end;
                },
                None => {
                    assert(operand_views(operands@) + Seq::<OperandView>::empty()
                        == operand_views(operands@));
                    return (operands, cur);
                },
            }
        } else {
            assert(operand_views(operands@) + Seq::<OperandView>::empty() == operand_views(
                operands@,
            ));
            return (operands, cur);
        }
    }
}

/// Reads a comment at `pos` and returns where its text ends.
fn parse_comment(input: &[u8], pos: usize) -> (r: Option<usize>)
    requires
        pos <= input.len(),
    ensures
        match r {
            Some(end) => comment(input@, pos as int) == Some(end as int) && pos < end
                <= input.len(),
            None => comment(input@, pos as int) is None,
        },
{
    if pos < input.len() && input[pos] == HASH {
        Some(scan(input, pos + 1, Class::CommentText))
    } else {
        None
    }
}

/// Reads the rest of a line at `pos`: blanks, a comment if there is one, and
/// the line break or the end of the text.
fn parse_line_ending_comment(input: &[u8], pos: usize) -> (r: Option<usize>)
    requires
        pos <= input.len(),
    ensures
        match r {
            Some(next) => line_end(input@, pos as int) == Some(next as int) && pos <= next
                <= input.len(),
            None => line_end(input@, pos as int) is None,
        },
{
    let blank = scan(input, pos, Class::Blank);
    let stop = match parse_comment(input, blank) {
        Some(end) => end,
        None => blank,
    };
    if stop < input.len() && input[stop] == LINE_FEED {
        Some(stop + 1)
    } else if stop < input.len() && input[stop] == CARRIAGE_RETURN && stop + 1 < input.len()
        && input[stop + 1] == LINE_FEED {
        Some(stop + 2)
    } else if stop == input.len() {
        Some(stop)
    } else {
        None
    }
}

/// Skips the blanks, line breaks and comments at `pos`.
fn skip_trivia(input: &[u8], pos: usize) -> (end: usize)
    requires
        pos <= input.len(),
    ensures
        end == trivia_end(input@, pos as int),
        pos <= end <= input.len(),
{
    let mut cur: usize = pos;
    loop
        invariant
            pos <= cur <= input.len(),
            trivia_end(input@, pos as int) == trivia_end(input@, cur as int),
        decreases input.len() - cur,
    {
        let blank = scan(input, cur, Class::Blank);
        match parse_line_ending_comment(input, cur) {
            Some(next) => {
                if next > blank {
                    cur = next;
                } else {
                    return blank;
                }
            },
            None => {
                return blank;
            },
        }
    }
}

/// Reads a constant definition at `pos`.
fn parse_constant(input: &[u8], pos: usize) -> (r: Option<(AsmObject, usize)>)
    requires
        pos <= input.len(),
    ensures
        match r {
            Some((found, next)) => constant(input@, pos as int) == Some((found@, next as int))
                && pos < next <= input.len(),
            None => constant(input@, pos as int) is None,
        },
{
    let end = match parse_name(input, pos) {
        Some(end) => end,
        None => {
            return None;
        },
    };
    let equals = scan(input, end, Class::Blank);
    if !(equals < input.len() && input[equals] == EQUALS) {
        return None;
    }
    let start = scan(input, equals + 1, Class::Blank);
    let stop = scan(input, start, Class::Alphanumeric);
    if stop == start {
        return None;
    }
    match parse_line_ending_comment(input, stop) {
        Some(next) => Some(
            (
                AsmObject::Constant(
                    ascii_string(input, pos, end),
                    ascii_string(input, start, stop),
                ),
                next,
            ),
        ),
        None => None,
    }
}

/// Reads a label at `pos`.
fn parse_label(input: &[u8], pos: usize) -> (r: Option<(AsmObject, usize)>)
    requires
        pos <= input.len(),
    ensures
        match r {
            Some((found, next)) => label(input@, pos as int) == Some((found@, next as int))
                && pos < next <= input.len(),
            None => label(input@, pos as int) is None,
        },
{
    let end = match parse_name(input, pos) {
        Some(end) => end,
        None => {
            return None;
        },
    };
    if end < input.len() && input[end] == COLON {
        Some((AsmObject::Label(ascii_string(input, pos, end)), end + 1))
    } else {
        None
    }
}

/// Reads an instruction statement at `pos`.
fn parse_instruction(input: &[u8], pos: usize) -> (r: Option<(AsmObject, usize)>)
    requires
        pos <= input.len(),
    ensures
        match r {
            Some((found, next)) => instruction(input@, pos as int) == Some(
                (found@, next as int),
            ) && pos < next <= input.len(),
            None => instruction(input@, pos as int) is None,
        },
{
    let end = match parse_name(input, pos) {
        Some(end) => end,
        None => {
            return None;
        },
    };
    let start = scan(input, end, Class::Blank);
    let (operands, last) = parse_operand_list(input, start);
    let next = match parse_line_ending_comment(input, last) {
        Some(next) => next,
        None => last,
    };
    Some((AsmObject::Instruction(ascii_string(input, pos, end), operands), next))
}

/// Reads a statement at `pos`: a constant definition, or else a label, or
/// else an instruction.
fn parse_statement(input: &[u8], pos: usize) -> (r: Option<(AsmObject, usize)>)
    requires
        pos <= input.len(),
    ensures
        match r {
            Some((found, next)) => statement(input@, pos as int) == Some((found@, next as int))
                && pos < next <= input.len(),
            None => statement(input@, pos as int) is None,
        },
{
    if let Some(found) = parse_constant(input, pos) {
        return Some(found);
    }
    if let Some(found) = parse_label(input, pos) {
        return Some(found);
    }
    parse_instruction(input, pos)
}

/// Reads the statements of a text of bytes, or finds where it stops following
/// the grammar.
pub fn parse_bytes(input: &[u8]) -> (r: Result<Vec<AsmObject>, SyntaxError>)
    ensures
        match r {
            Ok(objects) => program(input@) matches Ok(found) && found == object_views(objects@),
            Err(e) => program(input@) matches Err(offset) && offset == e.offset,
        },
{
    let mut objects: Vec<AsmObject> = Vec::new();
    let mut cur: usize = 0;
    assert(object_views(objects@) == Seq::<AsmObjectView>::empty());
    loop
        invariant
            cur <= input.len(),
            statements(input@, 0).0 == object_views(objects@) + statements(input@, cur as int).0,
            statements(input@, 0).1 == statements(input@, cur as int).1,
        decreases input.len() - cur,
    {
        let start = skip_trivia(input, cur);
        match parse_statement(input, start) {
            Some((found, next)) => {
                let ghost before = object_views(objects@);
                objects.push(found);
                assert(object_views(objects@) == before.push(found@));
                assert(before + (seq![found@] + statements(input@, next as int).0)
                    == before.push(found@) + statements(input@, next as int).0);
                cur = next;
            },
            None => {
                assert(object_views(objects@) + Seq::<AsmObjectView>::empty() == object_views(
                    objects@,
                ));
                if start == input.len() {
                    return Ok(objects);
                } else {
                    return Err(SyntaxError { offset: start });
                }
            },
        }
    }
}

/// Reads the statements of an assembly text.
///
/// The text is read as its bytes. The result is the statements in the order
/// of the text, or the offset of the first byte that no statement, blank, line
/// break or comment accounts for.
pub fn parse_asm(input: &str) -> (r: Result<Vec<AsmObject>, SyntaxError>)
    ensures
        match r {
            Ok(objects) => program(input.spec_bytes()) matches Ok(found) && found == object_views(
                objects@,
            ),
            Err(e) => program(input.spec_bytes()) matches Err(offset) && offset == e.offset,
        },
{
    parse_bytes(input.as_bytes())
}

/// Reads one operand at the start of a text and returns it with the bytes
/// that follow it. Fails at offset 0 when the text begins with no operand.
pub fn parse_operand<'a>(input: &'a str) -> (r: Result<(&'a [u8], Operand), SyntaxError>)
    ensures
        match r {
            Ok((rest, found)) => operand(input.spec_bytes(), 0) matches Some((first, end))
                && found@ == first && rest@ == input.spec_bytes().skip(end),
            Err(e) => operand(input.spec_bytes(), 0) is None && e.offset == 0,
        },
{
    let bytes = input.as_bytes();
    match operand_at(bytes, 0) {
        Some((found, end)) => Ok((slice_subrange(bytes, end, bytes.len()), found)),
        None => Err(SyntaxError { offset: 0 }),
    }
}

/// Skips the blanks, line breaks and comments at the start of a text and
/// returns the bytes that follow them.
pub fn parse_comment_whitespace<'a>(input: &'a str) -> (rest: &'a [u8])
    ensures
        rest@ == input.spec_bytes().skip(trivia_end(input.spec_bytes(), 0)),
{
    let bytes = input.as_bytes();
    let end = skip_trivia(bytes, 0);
    slice_subrange(bytes, end, bytes.len())
}

} // verus!
